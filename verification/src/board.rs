//! Internal representation of a Connect Four board. In the engine, this
//! serves as a node in the game tree.
//!
//! A board is two bitboards and a move counter. Well-formedness
//! (`Board::wf`) captures the invariants of every reachable position: pieces
//! stay inside the playable area, every column is a contiguous stack grown
//! from the bottom, the side to move owns pieces that were played, and the
//! piece counts agree with the move counter.

use vstd::prelude::*;

verus! {

use crate::bitboard::{
    bottom_index,
    spec_col,
    spec_column_mask,
    spec_bottom_mask,
    spec_top_mask,
    spec_mirror,
    lemma_mirror_cols,
    column_mask,
    bottom_piece_mask,
    top_piece_mask,
    BOTTOM_ROW_MASK,
    FULL_BOARD_MASK,
};
use vstd::arithmetic::power2::{pow2, lemma_pow2_unfold, lemma_pow2_pos};
use crate::bits::{
    pop,
    popcount,
    lemma_pop_zero,
    lemma_pop_mod_div,
    lemma_pop_or_disjoint,
    lemma_pop_xor_subset,
    lemma_pop_single,
    lemma_pop_multi,
};

/// The direction of a four-in-a-row line.
pub enum WinDirection {
    AscendingDiagonal,
    DescendingDiagonal,
    Horizontal,
    Vertical,
}

/// Internal representation of a Connect Four board.
#[derive(Copy, Clone, Debug)]
pub struct Board {
    /// A bitboard representing the pieces belonging to the current player.
    pub player_bb: u64,
    /// A bitboard representing all the pieces played in the game.
    pub occupied_bb: u64,
    /// The number of moves made in the game.
    pub num_moves: u8,
}

/// A column's seven bits form a stack grown from the bottom, sentinel clear.
pub open spec fn col_ok(v: u64) -> bool {
    v == 0 || v == 1 || v == 3 || v == 7 || v == 15 || v == 31 || v == 63
}

/// The number of pieces in a well-formed column.
pub open spec fn col_height(v: u64) -> int {
    if v == 0 {
        0
    } else if v == 1 {
        1
    } else if v == 3 {
        2
    } else if v == 7 {
        3
    } else if v == 15 {
        4
    } else if v == 31 {
        5
    } else {
        6
    }
}

/// The set bits of a well-formed column are its height.
proof fn lemma_pop_col_ok(v: u64)
    requires
        col_ok(v),
    ensures
        pop(v) == col_height(v),
{
    reveal_with_fuel(pop, 8);
}

/// Shifting down column by column agrees with shifting down in one step.
proof fn lemma_bv_shr_chain(x: u64)
    by (bit_vector)
    ensures
        (x >> 7u64) >> 7u64 == x >> 14u64,
        (x >> 14u64) >> 7u64 == x >> 21u64,
        (x >> 21u64) >> 7u64 == x >> 28u64,
        (x >> 28u64) >> 7u64 == x >> 35u64,
        (x >> 35u64) >> 7u64 == x >> 42u64,
        (x >> 42u64) >> 7u64 == x >> 49u64,
        x >> 0u64 == x,
        x & 0x7f == x % 128,
        (x >> 7u64) == x / 128,
{
}

/// A board's piece count is the sum of its column heights.
pub proof fn lemma_pop_columns(x: u64)
    requires
        x >> 49 == 0,
        forall|c: int| 0 <= c < 7 ==> col_ok(#[trigger] spec_col(x, c)),
    ensures
        pop(x) == col_height(spec_col(x, 0)) + col_height(spec_col(x, 1)) + col_height(
            spec_col(x, 2),
        ) + col_height(spec_col(x, 3)) + col_height(spec_col(x, 4)) + col_height(spec_col(x, 5))
            + col_height(spec_col(x, 6)),
        pop(x) <= 42,
{
    reveal_with_fuel(crate::bits::is_bin_pow, 9);
    lemma_bv_shr_chain(x);
    let x1: u64 = x >> 7u64;
    let x2: u64 = x >> 14u64;
    let x3: u64 = x >> 21u64;
    let x4: u64 = x >> 28u64;
    let x5: u64 = x >> 35u64;
    let x6: u64 = x >> 42u64;
    lemma_bv_shr_chain(x1);
    lemma_bv_shr_chain(x2);
    lemma_bv_shr_chain(x3);
    lemma_bv_shr_chain(x4);
    lemma_bv_shr_chain(x5);
    lemma_bv_shr_chain(x6);
    lemma_pop_mod_div(x, 128);
    lemma_pop_mod_div(x1, 128);
    lemma_pop_mod_div(x2, 128);
    lemma_pop_mod_div(x3, 128);
    lemma_pop_mod_div(x4, 128);
    lemma_pop_mod_div(x5, 128);
    lemma_pop_mod_div(x6, 128);
    assert(spec_col(x, 0) == x % 128);
    assert(pop((x6 / 128) as u64) == 0) by {
        lemma_pop_zero((x6 / 128) as u64);
    }
    assert forall|c: int| 0 <= c < 7 implies pop(#[trigger] spec_col(x, c)) == col_height(
        spec_col(x, c),
    ) by {
        lemma_pop_col_ok(spec_col(x, c));
    }
    assert forall|c: int| 0 <= c < 7 implies col_height(#[trigger] spec_col(x, c)) <= 6 by {
        assert(col_ok(spec_col(x, c)));
    }
}

/// The set of landing cells over a raw occupied bitboard.
pub open spec fn spec_possible_of(occ: u64) -> u64 {
    ((occ + BOTTOM_ROW_MASK) as u64) & FULL_BOARD_MASK
}

impl Board {
    /// The invariants of a reachable position.
    pub open spec fn wf(self) -> bool {
        &&& self.occupied_bb >> 49 == 0
        &&& (forall|c: int| 0 <= c < 7 ==> col_ok(#[trigger] spec_col(self.occupied_bb, c)))
        &&& self.player_bb & self.occupied_bb == self.player_bb
        &&& self.num_moves == pop(self.occupied_bb)
        &&& pop(self.player_bb) == self.num_moves as int / 2
    }

    /// The pieces of the player who is not to move.
    pub open spec fn spec_opponent(self) -> u64 {
        self.player_bb ^ self.occupied_bb
    }

    /// Column `c` is not full.
    pub open spec fn spec_is_open(self, c: int) -> bool {
        self.occupied_bb & spec_top_mask(c) == 0
    }

    /// The set of single bits that are the next empty cell of each non-full
    /// column.
    pub open spec fn spec_possible(self) -> u64 {
        spec_possible_of(self.occupied_bb)
    }

    /// The single bit where a piece dropped in column `c` lands, or zero for
    /// a full column.
    pub open spec fn spec_move_bit(self, c: int) -> u64 {
        self.spec_possible() & spec_column_mask(c)
    }

    /// The board after the side to move drops a piece on cell `m`.
    pub open spec fn spec_play_bb(self, m: u64) -> Board {
        Board {
            player_bb: self.player_bb ^ self.occupied_bb,
            occupied_bb: self.occupied_bb | m,
            num_moves: (self.num_moves + 1) as u8,
        }
    }

    /// The board after the side to move plays column `c`.
    pub open spec fn spec_play_col(self, c: int) -> Board {
        self.spec_play_bb(self.spec_move_bit(c))
    }

    /// The board after the topmost piece of column `c` is removed and the
    /// turn is handed back.
    pub open spec fn spec_undo_col(self, c: int) -> Board {
        let mv = (((self.occupied_bb + spec_bottom_mask(c)) as u64) >> 1u64) & spec_column_mask(c);
        let occ = self.occupied_bb ^ mv;
        Board {
            player_bb: self.player_bb ^ occ,
            occupied_bb: occ,
            num_moves: (self.num_moves - 1) as u8,
        }
    }

    /// `m` is the landing cell of some open column: the only moves a search
    /// ever plays.
    pub open spec fn spec_is_move(self, m: u64) -> bool {
        exists|c: int| 0 <= c < 7 && self.spec_is_open(c) && m == self.spec_move_bit(c) && m != 0
    }

    /// `m` drops a piece in some open column when `or`-ed into the
    /// occupancy: either a landing cell itself, or the word
    /// `occupied + bottom_piece_mask(c)`.
    pub open spec fn spec_is_play_word(self, m: u64) -> bool {
        exists|c: int|
            0 <= c < 7 && self.spec_is_open(c) && (self.occupied_bb | m) == #[trigger] self
                .spec_play_col(c).occupied_bb
    }
}

/// Bit-level facts about dropping a piece in column `c` of a well-formed
/// board, observed from column `d`.
proof fn lemma_bv_play(occ: u64, c: u64, d: u64)
    by (bit_vector)
    requires
        c < 7,
        d < 7,
        occ >> 49 == 0,
        col_ok(spec_col(occ, 0)),
        col_ok(spec_col(occ, 1)),
        col_ok(spec_col(occ, 2)),
        col_ok(spec_col(occ, 3)),
        col_ok(spec_col(occ, 4)),
        col_ok(spec_col(occ, 5)),
        col_ok(spec_col(occ, 6)),
    ensures
        (occ & spec_top_mask(c as int) == 0) <==> spec_col(occ, c as int) != 63,
        (occ & spec_top_mask(c as int) == 0) <==> spec_possible_of(occ) & spec_column_mask(
            c as int,
        ) != 0,
        occ & spec_top_mask(c as int) == 0 ==> {
            let m = spec_possible_of(occ) & spec_column_mask(c as int);
            &&& m & ((m - 1) as u64) == 0
            &&& m & occ == 0
            &&& m & spec_column_mask(c as int) == m
            &&& (occ | m) == occ + m
            &&& ((occ + m) as u64) >> 49 == 0
            &&& occ | ((occ + spec_bottom_mask(c as int)) as u64) == (occ + m) as u64
            &&& spec_col((occ + m) as u64, d as int) == if d == c {
                2 * spec_col(occ, c as int) + 1
            } else {
                spec_col(occ, d as int) as int
            }
            &&& ((((occ + m + spec_bottom_mask(c as int)) as u64) >> 1u64) & spec_column_mask(
                c as int,
            )) == m
        },
{
}

/// Bit-level facts about removing the topmost piece of column `c` of a
/// well-formed board, observed from column `d`.
proof fn lemma_bv_undo(occ: u64, c: u64, d: u64)
    by (bit_vector)
    requires
        c < 7,
        d < 7,
        occ >> 49 == 0,
        col_ok(spec_col(occ, 0)),
        col_ok(spec_col(occ, 1)),
        col_ok(spec_col(occ, 2)),
        col_ok(spec_col(occ, 3)),
        col_ok(spec_col(occ, 4)),
        col_ok(spec_col(occ, 5)),
        col_ok(spec_col(occ, 6)),
        spec_col(occ, c as int) != 0,
    ensures
        ({
            let mv = (((occ + spec_bottom_mask(c as int)) as u64) >> 1u64) & spec_column_mask(
                c as int,
            );
            &&& mv != 0
            &&& mv & ((mv - 1) as u64) == 0
            &&& mv & occ == mv
            &&& ((occ ^ mv) as u64) >> 49 == 0
            &&& spec_col((occ ^ mv) as u64, d as int) == if d == c {
                spec_col(occ, c as int) as int / 2
            } else {
                spec_col(occ, d as int) as int
            }
        }),
{
}

/// Commutativity of the bitwise connectives, and cancellation of
/// exclusive-or, used when the mover's pieces swap with the opponent's.
proof fn lemma_bv_xor(a: u64, b: u64)
    by (bit_vector)
    ensures
        (a ^ b) ^ b == a,
        a ^ b == b ^ a,
        a & b == b & a,
        a | b == b | a,
{
}

/// Playing a legal move preserves well-formedness; how every field changes.
pub proof fn lemma_play_bb_wf(b: Board, m: u64)
    requires
        b.wf(),
        b.spec_is_move(m),
    ensures
        b.spec_play_bb(m).wf(),
        b.spec_play_bb(m).occupied_bb == b.occupied_bb + m,
        b.spec_play_bb(m).num_moves == b.num_moves + 1,
        b.spec_play_bb(m).spec_opponent() == b.player_bb | m,
        pop(m) == 1,
        m & b.occupied_bb == 0,
        b.num_moves < 42,
{
    let c = choose|c: int|
        0 <= c < 7 && b.spec_is_open(c) && m == b.spec_move_bit(c) && m != 0;
    let occ = b.occupied_bb;
    let pl = b.player_bb;
    assert forall|d: int| 0 <= d < 7 implies col_ok(
        #[trigger] spec_col((occ + m) as u64, d),
    ) && spec_col((occ + m) as u64, d) == (if d == c {
        2 * spec_col(occ, c) + 1
    } else {
        spec_col(occ, d) as int
    }) by {
        lemma_bv_play(occ, c as u64, d as u64);
    }
    lemma_bv_play(occ, c as u64, c as u64);
    // piece count increases by exactly one
    lemma_pop_single(m);
    lemma_bv_xor(occ, m);
    lemma_pop_or_disjoint(occ, m);
    // the column heights bound the piece count: a board with an open column
    // has fewer than 42 pieces
    lemma_pop_columns(occ);
    lemma_pop_col_ok(spec_col(occ, c));
    lemma_pop_columns((occ + m) as u64);
    // the new side to move owns the pieces the old side did not
    lemma_bv_xor(pl, occ);
    lemma_pop_xor_subset(pl, occ);
    assert((pl ^ occ) & (occ | m) == (pl ^ occ)) by (bit_vector)
        requires
            pl & occ == pl,
            m & occ == 0,
    ;
    // the new opponent is the old mover plus the new piece
    assert((pl ^ occ) ^ (occ | m) == pl | m) by (bit_vector)
        requires
            pl & occ == pl,
            m & occ == 0,
    ;
}

/// Playing a legal column preserves well-formedness, and the landing cell is
/// a fresh single bit of that column.
pub proof fn lemma_play_col_wf(b: Board, c: int)
    requires
        b.wf(),
        0 <= c < 7,
        b.spec_is_open(c),
    ensures
        b.spec_play_col(c).wf(),
        b.spec_move_bit(c) != 0,
        b.spec_is_move(b.spec_move_bit(c)),
        b.spec_play_col(c).occupied_bb == b.occupied_bb + b.spec_move_bit(c),
        b.spec_play_col(c).num_moves == b.num_moves + 1,
        b.num_moves < 42,
{
    lemma_bv_play(b.occupied_bb, c as u64, c as u64);
    lemma_play_bb_wf(b, b.spec_move_bit(c));
}

/// Undoing the move just played restores the original board exactly.
pub proof fn lemma_play_undo(b: Board, c: int)
    requires
        b.wf(),
        0 <= c < 7,
        b.spec_is_open(c),
    ensures
        b.spec_play_col(c).spec_undo_col(c) == b,
{
    let m = b.spec_move_bit(c);
    let occ = b.occupied_bb;
    let pl = b.player_bb;
    lemma_bv_play(occ, c as u64, c as u64);
    lemma_pop_columns(occ);
    assert((occ | m) == (occ + m) as u64);
    // the undo computation finds exactly the bit the play added
    assert((((occ + m + spec_bottom_mask(c)) as u64) >> 1u64) & spec_column_mask(c) == m);
    assert(((occ + m) as u64) ^ m == occ) by (bit_vector)
        requires
            m & occ == 0,
            (occ | m) == (occ + m) as u64,
    ;
    lemma_bv_xor(pl, occ);
}

/// Cancellation facts for exclusive-or, and equality through it.
proof fn lemma_bv_eq(a: u64, b: u64)
    by (bit_vector)
    ensures
        (a ^ b == 0) <==> (a == b),
{
}

/// Masking with the complement removes exactly the named bits, and subsets
/// survive further masking.
pub proof fn lemma_bv_andnot(x: u64, y: u64, z: u64)
    by (bit_vector)
    ensures
        (x & !y == x) <==> (x & y == 0),
        (x & !y) & x == x & !y,
        (x & !y) & y == 0,
        (x & y) & x == x & y,
        x & 0 == 0,
        0 & x == 0,
        x & y == x ==> (x & z) & (y & z) == x & z,
        x & y == x ==> x <= y,
        (x & y == x && y & z == y) ==> x & z == x,
{
}

/// Extracting a column commutes with reading the column's value.
proof fn lemma_bv_col_extract(occ: u64, s: u64)
    by (bit_vector)
    requires
        s < 49,
        ((occ >> s) & 0x7f) < 64,
    ensures
        occ & (0x3fu64 << s) == (((occ >> s) & 0x7f) as u64) << s,
{
}

/// The single-bit masks of a column are small.
proof fn lemma_bv_mask_bounds(c: u64)
    by (bit_vector)
    requires
        c < 7,
    ensures
        spec_bottom_mask(c as int) <= 0x40000000000,
        spec_bottom_mask(c as int) >= 1,
        spec_top_mask(c as int) <= 0x800000000000,
        spec_column_mask(c as int) <= 0xfdfbf7efdfbf,
{
}

/// A word whose columns are well-formed stacks lies inside the playable area.
proof fn lemma_bv_in_full(occ: u64)
    by (bit_vector)
    requires
        occ >> 49 == 0,
        col_ok(spec_col(occ, 0)),
        col_ok(spec_col(occ, 1)),
        col_ok(spec_col(occ, 2)),
        col_ok(spec_col(occ, 3)),
        col_ok(spec_col(occ, 4)),
        col_ok(spec_col(occ, 5)),
        col_ok(spec_col(occ, 6)),
    ensures
        occ & 0xfdfbf7efdfbf == occ,
{
}

/// Multiplying by a power of two does not change the number of set bits.
proof fn lemma_pop_shl(v: u64, s: nat)
    requires
        v * pow2(s) <= u64::MAX,
    ensures
        pop((v * pow2(s)) as u64) == pop(v),
    decreases s,
{
    if s > 0 {
        lemma_pow2_unfold(s);
        lemma_pow2_pos((s - 1) as nat);
        let p: int = pow2((s - 1) as nat) as int;
        let w: int = v * p;
        assert(v * pow2(s) == 2 * w) by (nonlinear_arith)
            requires
                pow2(s) == 2 * p,
                w == v * p,
        ;
        assert(w >= 0) by (nonlinear_arith)
            requires
                w == v * p,
                v >= 0,
                p >= 1,
        ;
        lemma_pop_shl(v, (s - 1) as nat);
        if w == 0 {
            assert(pop((v * pow2(s)) as u64) == pop(0u64));
        } else {
            let u: u64 = (2 * w) as u64;
            assert(u == 2 * w);
            assert(u != 0);
            assert(u % 2 == 0);
            assert(u / 2 == w);
            assert(pop(u) == (u % 2) + pop((u / 2) as u64));
            assert((u / 2) as u64 == (v * pow2((s - 1) as nat)) as u64);
        }
    } else {
        assert(pow2(0) == 1) by {
            vstd::arithmetic::power2::lemma2_to64();
        }
        assert(v * 1 == v);
    }
}

impl Board {
    /// Creates an empty board: the initial position.
    pub fn new() -> (r: Board)
        ensures
            r.wf(),
            r.player_bb == 0,
            r.occupied_bb == 0,
            r.num_moves == 0,
    {
        proof {
            lemma_empty_cols();
        }
        Board { player_bb: 0, occupied_bb: 0, num_moves: 0 }
    }

    /// Returns a bitboard representing the pieces belonging to the current player.
    pub fn player_bb(&self) -> (r: u64)
        ensures
            r == self.player_bb,
    {
        self.player_bb
    }

    /// Returns a bitboard representing the pieces belonging to the opposing player.
    pub fn opponent_bb(&self) -> (r: u64)
        ensures
            r == self.spec_opponent(),
    {
        self.player_bb ^ self.occupied_bb
    }

    /// Returns a bitboard representing all the pieces.
    pub fn occupied_bb(&self) -> (r: u64)
        ensures
            r == self.occupied_bb,
    {
        self.occupied_bb
    }

    /// Returns the number of moves made in the game.
    pub fn num_moves(&self) -> (r: u8)
        ensures
            r == self.num_moves,
    {
        self.num_moves
    }

    /// Checks if the given 0-indexed column is not full.
    pub fn is_open(&self, col: u8) -> (r: bool)
        requires
            col < 7,
        ensures
            r == self.spec_is_open(col as int),
    {
        (self.occupied_bb & top_piece_mask(col)) == 0
    }

    /// Checks if the board is full and no more moves can be played.
    pub fn is_full(&self) -> (r: bool)
        ensures
            r == (self.num_moves >= 42),
    {
        self.num_moves >= 42
    }

    /// Returns the number of pieces in a 0-indexed column.
    pub fn pieces_in_col(&self, col: u8) -> (r: u8)
        requires
            self.wf(),
            col < 7,
        ensures
            r == col_height(spec_col(self.occupied_bb, col as int)),
    {
        let cm: u64 = column_mask(col);
        proof {
            let s: u64 = (7 * col) as u64;
            let v: u64 = spec_col(self.occupied_bb, col as int);
            lemma_bv_col_extract(self.occupied_bb, s);
            assert(pow2(42) == 0x40000000000) by {
                vstd::arithmetic::power2::lemma2_to64_rest();
            }
            if s < 42 {
                vstd::arithmetic::power2::lemma_pow2_strictly_increases(s as nat, 42);
            }
            assert(v * pow2(s as nat) <= 63 * 0x40000000000) by (nonlinear_arith)
                requires
                    v <= 63,
                    pow2(s as nat) <= 0x40000000000,
            ;
            vstd::bits::lemma_u64_shl_is_mul(v, s);
            lemma_pop_shl(v, s as nat);
            lemma_pop_col_ok(v);
        }
        let n: u32 = popcount(self.occupied_bb & cm);
        n as u8
    }

    /// Plays the current player's piece given a move represented as a
    /// bitboard: either a landing cell from the search, or the sum
    /// `occupied + bottom_piece_mask(c)` used by [`Board::play_unchecked`].
    pub fn play_bb(&mut self, move_bb: u64)
        requires
            old(self).wf(),
            old(self).spec_is_play_word(move_bb),
        ensures
            final(self).player_bb == old(self).spec_opponent(),
            final(self).occupied_bb == old(self).occupied_bb | move_bb,
            final(self).num_moves == old(self).num_moves + 1,
            final(self).wf(),
            exists|c: int|
                0 <= c < 7 && old(self).spec_is_open(c) && #[trigger] old(self).spec_play_col(c)
                    == *final(self),
    {
        proof {
            let c = choose|c: int|
                0 <= c < 7 && old(self).spec_is_open(c) && (old(self).occupied_bb | move_bb)
                    == old(self).spec_play_col(c).occupied_bb;
            lemma_play_col_wf(*old(self), c);
            assert(old(self).spec_play_bb(move_bb) == old(self).spec_play_col(c));
        }
        self.player_bb = self.player_bb ^ self.occupied_bb;
        self.occupied_bb = self.occupied_bb | move_bb;
        self.num_moves = self.num_moves + 1;
    }

    /// Plays the current player's piece in the given 0-indexed column without
    /// checking if the move can be played.
    pub fn play_unchecked(&mut self, col: u8)
        requires
            old(self).wf(),
            col < 7,
            old(self).spec_is_open(col as int),
        ensures
            *final(self) == old(self).spec_play_col(col as int),
            final(self).wf(),
    {
        proof {
            lemma_occ_bound(old(self).occupied_bb);
            lemma_bv_mask_bounds(col as u64);
            lemma_play_word(*old(self), col as int);
            lemma_play_col_wf(*old(self), col as int);
        }
        let mb: u64 = self.occupied_bb + bottom_piece_mask(col);
        self.play_bb(mb);
    }

    /// Removes the topmost piece in the given 0-indexed column.
    pub fn undo_unchecked(&mut self, col: u8)
        requires
            old(self).wf(),
            col < 7,
            spec_col(old(self).occupied_bb, col as int) != 0,
        ensures
            *final(self) == old(self).spec_undo_col(col as int),
    {
        proof {
            lemma_occ_bound(old(self).occupied_bb);
            lemma_bv_mask_bounds(col as u64);
            lemma_pop_columns(old(self).occupied_bb);
            lemma_pop_col_ok(spec_col(old(self).occupied_bb, col as int));
        }
        let move_bb: u64 = (self.occupied_bb + bottom_piece_mask(col)) >> 1;
        self.occupied_bb = self.occupied_bb ^ (move_bb & column_mask(col));
        self.player_bb = self.player_bb ^ self.occupied_bb;
        self.num_moves = self.num_moves - 1;
    }

    /// Mirrors the board so its columns are reflected horizontally.
    pub fn mirror(&mut self)
        requires
            old(self).wf(),
        ensures
            final(self).player_bb == spec_mirror(old(self).player_bb),
            final(self).occupied_bb == spec_mirror(old(self).occupied_bb),
            final(self).num_moves == old(self).num_moves,
            final(self).wf(),
    {
        proof {
            lemma_mirror_wf(*old(self));
        }
        self.player_bb = crate::bitboard::mirror(self.player_bb);
        self.occupied_bb = crate::bitboard::mirror(self.occupied_bb);
    }
}

/// The empty word has empty columns.
proof fn lemma_empty_cols()
    by (bit_vector)
    ensures
        forall|c: u64| c < 7 ==> #[trigger] spec_col(0u64, c as int) == 0,
        0u64 >> 49 == 0,
        0u64 & 0u64 == 0,
{
}

/// A word clear above bit 48 is below `2^49`.
pub proof fn lemma_occ_bound(x: u64)
    requires
        x >> 49 == 0,
    ensures
        x < 0x2000000000000,
{
    assert(x >> 49 == 0 ==> x < 0x2000000000000) by (bit_vector);
}

/// The word `occupied + bottom_piece_mask(c)` drops a piece in column `c`:
/// `or`-ing it in lands the piece on the column's first empty cell.
proof fn lemma_play_word(b: Board, c: int)
    requires
        b.wf(),
        0 <= c < 7,
        b.spec_is_open(c),
    ensures
        b.occupied_bb | ((b.occupied_bb + spec_bottom_mask(c)) as u64) == b.spec_play_col(
            c,
        ).occupied_bb,
        b.spec_is_play_word(((b.occupied_bb + spec_bottom_mask(c)) as u64)),
{
    lemma_occ_bound(b.occupied_bb);
    lemma_bv_mask_bounds(c as u64);
    lemma_bv_play(b.occupied_bb, c as u64, c as u64);
    let w: u64 = (b.occupied_bb + spec_bottom_mask(c)) as u64;
    assert(0 <= c < 7 && b.spec_is_open(c) && (b.occupied_bb | w) == b.spec_play_col(
        c,
    ).occupied_bb);
}

/// Mirroring a well-formed board yields a well-formed board.
proof fn lemma_mirror_wf(b: Board)
    requires
        b.wf(),
    ensures
        ({
            let r = Board {
                player_bb: spec_mirror(b.player_bb),
                occupied_bb: spec_mirror(b.occupied_bb),
                num_moves: b.num_moves,
            };
            r.wf()
        }),
{
    let occ = b.occupied_bb;
    let pl = b.player_bb;
    lemma_occ_bound(occ);
    lemma_bv_in_full(occ);
    lemma_bv_andnot(pl, occ, FULL_BOARD_MASK);
    lemma_mirror_cols(occ, 0);
    lemma_mirror_cols(pl, 0);
    assert forall|d: int| 0 <= d < 7 implies #[trigger] spec_col(spec_mirror(occ), d) == spec_col(
        occ,
        6 - d,
    ) by {
        lemma_mirror_cols(occ, d as u64);
    }
    assert forall|d: int| 0 <= d < 7 implies #[trigger] spec_col(spec_mirror(pl), d) == spec_col(
        pl,
        6 - d,
    ) by {
        lemma_mirror_cols(pl, d as u64);
    }
    lemma_bv_mirror_and(pl, occ);
    lemma_pop_columns(occ);
    lemma_pop_columns(spec_mirror(occ));
    lemma_pop_subcols(pl, occ);
    lemma_pop_subcols(spec_mirror(pl), spec_mirror(occ));
}

/// A player's piece count is the sum of the player's per-column counts.
proof fn lemma_pop_subcols(pl: u64, occ: u64)
    requires
        occ >> 49 == 0,
        pl & occ == pl,
    ensures
        pl >> 49 == 0,
        pop(pl) == pop(spec_col(pl, 0)) + pop(spec_col(pl, 1)) + pop(spec_col(pl, 2)) + pop(
            spec_col(pl, 3),
        ) + pop(spec_col(pl, 4)) + pop(spec_col(pl, 5)) + pop(spec_col(pl, 6)),
{
    lemma_bv_full_sub(occ, pl);
    reveal_with_fuel(crate::bits::is_bin_pow, 9);
    lemma_bv_shr_chain(pl);
    let x1: u64 = pl >> 7u64;
    let x2: u64 = pl >> 14u64;
    let x3: u64 = pl >> 21u64;
    let x4: u64 = pl >> 28u64;
    let x5: u64 = pl >> 35u64;
    let x6: u64 = pl >> 42u64;
    lemma_bv_shr_chain(x1);
    lemma_bv_shr_chain(x2);
    lemma_bv_shr_chain(x3);
    lemma_bv_shr_chain(x4);
    lemma_bv_shr_chain(x5);
    lemma_bv_shr_chain(x6);
    lemma_pop_mod_div(pl, 128);
    lemma_pop_mod_div(x1, 128);
    lemma_pop_mod_div(x2, 128);
    lemma_pop_mod_div(x3, 128);
    lemma_pop_mod_div(x4, 128);
    lemma_pop_mod_div(x5, 128);
    lemma_pop_mod_div(x6, 128);
    lemma_pop_zero((x6 / 128) as u64);
}

/// Pieces inside the playable area stay below bit 49, column by column.
proof fn lemma_bv_full_sub(occ: u64, pl: u64)
    by (bit_vector)
    requires
        occ >> 49 == 0,
        pl & occ == pl,
    ensures
        pl >> 49 == 0,
{
}

/// A player's column is a sub-stack of the occupancy's column.
proof fn lemma_bv_col_le(occ: u64, pl: u64, c: u64)
    by (bit_vector)
    requires
        c < 7,
        pl & occ == pl,
        col_ok(spec_col(occ, c as int)),
    ensures
        spec_col(pl, c as int) & spec_col(occ, c as int) == spec_col(pl, c as int),
        spec_col(pl, c as int) < 64,
{
}

/// Mirroring preserves containment of one piece set in another.
proof fn lemma_bv_mirror_and(a: u64, b: u64)
    by (bit_vector)
    requires
        a & b == a,
    ensures
        spec_mirror(a) & spec_mirror(b) == spec_mirror(a),
{
}

/// The cells of a four-in-a-row on the ascending diagonal, by paired shifts.
pub open spec fn spec_line_asc(b: u64) -> u64 {
    (b & (b >> 8u64)) & ((b & (b >> 8u64)) >> 16u64)
}

/// The cells of a four-in-a-row on the descending diagonal, by paired shifts.
pub open spec fn spec_line_desc(b: u64) -> u64 {
    (b & (b >> 6u64)) & ((b & (b >> 6u64)) >> 12u64)
}

/// The cells of a horizontal four-in-a-row, by paired shifts.
pub open spec fn spec_line_horiz(b: u64) -> u64 {
    (b & (b >> 7u64)) & ((b & (b >> 7u64)) >> 14u64)
}

/// The cells of a vertical four-in-a-row, by paired shifts.
pub open spec fn spec_line_vert(b: u64) -> u64 {
    (b & (b >> 1u64)) & ((b & (b >> 1u64)) >> 2u64)
}

/// The bitboard holds four connected cells in some direction.
pub open spec fn spec_has_line(b: u64) -> bool {
    ||| spec_line_asc(b) != 0
    ||| spec_line_desc(b) != 0
    ||| spec_line_horiz(b) != 0
    ||| spec_line_vert(b) != 0
}

/// The cells that would complete a four-in-a-row for the piece set `b`,
/// occupied or not.
pub open spec fn spec_threats(b: u64) -> u64 {
    let v = ((b << 1u64) & (b << 2u64)) & (b << 3u64);
    let h1 = (b << 6u64) & (b << 12u64);
    let h2 = (b >> 6u64) & (b >> 12u64);
    let z1 = (b << 7u64) & (b << 14u64);
    let z2 = (b >> 7u64) & (b >> 14u64);
    let d1 = (b << 8u64) & (b << 16u64);
    let d2 = (b >> 8u64) & (b >> 16u64);
    v | (h1 & (b << 18u64)) | (h1 & (b >> 6u64)) | (h2 & (b >> 18u64)) | (h2 & (b << 6u64)) | (z1
        & (b << 21u64)) | (z1 & (b >> 7u64)) | (z2 & (b >> 21u64)) | (z2 & (b << 7u64)) | (d1 & (b
        << 24u64)) | (d1 & (b >> 8u64)) | (d2 & (b >> 24u64)) | (d2 & (b << 8u64))
}

/// The empty cells that would complete a four-in-a-row for the piece set
/// `b` on a board whose occupancy is `occ`.
pub open spec fn spec_winning(b: u64, occ: u64) -> u64 {
    spec_threats(b) & (occ ^ FULL_BOARD_MASK)
}

/// The search invariant: neither side holds a line yet, and the side to
/// move has no immediately winning cell to play.
pub open spec fn spec_search_ok(b: Board) -> bool {
    &&& !spec_has_line(b.player_bb)
    &&& !spec_has_line(b.spec_opponent())
    &&& spec_winning(b.player_bb, b.occupied_bb) & b.spec_possible() == 0
}

/// The playable moves that do not hand the opponent an immediate win;
/// zero when every move loses.
pub open spec fn spec_non_losing(b: Board) -> u64 {
    let possible = b.spec_possible();
    let opponent_win = spec_winning(b.spec_opponent(), b.occupied_bb);
    let forced = possible & opponent_win;
    if forced != 0 {
        if forced & ((forced - 1) as u64) != 0 {
            0
        } else {
            forced & !(opponent_win >> 1u64)
        }
    } else {
        possible & !(opponent_win >> 1u64)
    }
}

impl Board {
    /// Checks if the board is in a finished position: full, or lost.
    pub fn is_terminal(&self) -> (r: bool)
        ensures
            r == (self.num_moves >= 42 || spec_has_line(self.spec_opponent())),
    {
        self.is_full() || self.has_opponent_won()
    }

    /// Checks whether the opposing player has four connected pieces.
    pub fn has_opponent_won(&self) -> (r: bool)
        ensures
            r == spec_has_line(self.spec_opponent()),
    {
        self.opponent_winning_bb().is_some()
    }

    /// The opposing player's four-in-a-row, if there is one.
    pub fn opponent_winning_bb(&self) -> (r: Option<(u64, WinDirection)>)
        ensures
            r.is_some() == spec_has_line(self.spec_opponent()),
            r == Self::spec_check_win(self.spec_opponent()),
    {
        self.check_win(self.opponent_bb())
    }

    /// The four-in-a-row report on a piece set: the cells of the line found
    /// first, by direction priority, and its direction.
    pub open spec fn spec_check_win(b: u64) -> Option<(u64, WinDirection)> {
        if spec_line_asc(b) != 0 {
            Some((spec_line_asc(b), WinDirection::AscendingDiagonal))
        } else if spec_line_desc(b) != 0 {
            Some((spec_line_desc(b), WinDirection::DescendingDiagonal))
        } else if spec_line_horiz(b) != 0 {
            Some((spec_line_horiz(b), WinDirection::Horizontal))
        } else if spec_line_vert(b) != 0 {
            Some((spec_line_vert(b), WinDirection::Vertical))
        } else {
            None
        }
    }

    /// Reports a four-in-a-row in the given piece set, if any: the cells of
    /// the matching pair-shift detector and the direction.
    pub fn check_win(&self, bitboard: u64) -> (r: Option<(u64, WinDirection)>)
        ensures
            r.is_some() == spec_has_line(bitboard),
            r == Self::spec_check_win(bitboard),
    {
        // Ascending diagonal /
        let x: u64 = bitboard & (bitboard >> 8);
        let new_bitboard: u64 = x & (x >> 16);
        if new_bitboard != 0 {
            return Some((new_bitboard, WinDirection::AscendingDiagonal));
        }
        // Descending diagonal \
        let x: u64 = bitboard & (bitboard >> 6);
        let new_bitboard: u64 = x & (x >> 12);
        if new_bitboard != 0 {
            return Some((new_bitboard, WinDirection::DescendingDiagonal));
        }
        // Horizontal -
        let x: u64 = bitboard & (bitboard >> 7);
        let new_bitboard: u64 = x & (x >> 14);
        if new_bitboard != 0 {
            return Some((new_bitboard, WinDirection::Horizontal));
        }
        // Vertical |
        let x: u64 = bitboard & (bitboard >> 1);
        let new_bitboard: u64 = x & (x >> 2);
        if new_bitboard != 0 {
            return Some((new_bitboard, WinDirection::Vertical));
        }
        None
    }

    /// Returns a bitboard of available moves.
    pub fn possible_bb(&self) -> (r: u64)
        requires
            self.wf(),
        ensures
            r == self.spec_possible(),
    {
        proof {
            lemma_occ_bound(self.occupied_bb);
        }
        (self.occupied_bb + BOTTOM_ROW_MASK) & FULL_BOARD_MASK
    }

    /// Returns a bitboard of tiles that can be played to win the game.
    pub fn winning_bb(&self, bitboard: u64) -> (r: u64)
        ensures
            r == spec_winning(bitboard, self.occupied_bb),
    {
        // Vertical |
        let mut x: u64 = (bitboard << 1) & (bitboard << 2) & (bitboard << 3);
        // Ascending diagonal /
        let y: u64 = (bitboard << 6) & (bitboard << 12);
        x |= y & (bitboard << 18);
        x |= y & (bitboard >> 6);
        let y: u64 = (bitboard >> 6) & (bitboard >> 12);
        x |= y & (bitboard >> 18);
        x |= y & (bitboard << 6);
        // Horizontal -
        let y: u64 = (bitboard << 7) & (bitboard << 14);
        x |= y & (bitboard << 21);
        x |= y & (bitboard >> 7);
        let y: u64 = (bitboard >> 7) & (bitboard >> 14);
        x |= y & (bitboard >> 21);
        x |= y & (bitboard << 7);
        // Descending diagonal \
        let y: u64 = (bitboard << 8) & (bitboard << 16);
        x |= y & (bitboard << 24);
        x |= y & (bitboard >> 8);
        let y: u64 = (bitboard >> 8) & (bitboard >> 16);
        x |= y & (bitboard >> 24);
        x |= y & (bitboard << 8);
        x & (self.occupied_bb ^ FULL_BOARD_MASK)
    }

    /// Checks whether the current player can win with their next move.
    pub fn can_win_next(&self) -> (r: bool)
        requires
            self.wf(),
        ensures
            r == (spec_winning(self.player_bb, self.occupied_bb) & self.spec_possible() != 0),
    {
        self.winning_bb(self.player_bb) & self.possible_bb() != 0
    }

    /// Checks whether the current player can win by playing into a 0-indexed column.
    pub fn is_winning_move(&self, col: u8) -> (r: bool)
        requires
            self.wf(),
            col < 7,
        ensures
            r == (spec_winning(self.player_bb, self.occupied_bb) & self.spec_possible()
                & spec_column_mask(col as int) != 0),
    {
        self.winning_bb(self.player_bb) & self.possible_bb() & column_mask(col) != 0
    }

    /// Returns the number of winning moves the current player has after
    /// playing a given move: the number of empty cells that would then
    /// complete a four-in-a-row for them.
    pub fn count_winning_moves(&self, move_bb: u64) -> (r: u32)
        ensures
            r == pop(spec_winning(self.player_bb | move_bb, self.occupied_bb)),
    {
        popcount(self.winning_bb(self.player_bb | move_bb))
    }

    /// Returns a bitboard of the playable moves that do not give the
    /// opponent an immediate win. If there are no possible moves that allow
    /// the current player to survive, then 0 is returned.
    pub fn non_losing_moves_bb(&self) -> (r: u64)
        requires
            self.wf(),
        ensures
            r == spec_non_losing(*self),
    {
        let possible_moves: u64 = self.possible_bb();
        let opponent_win: u64 = self.winning_bb(self.opponent_bb());
        let forced_moves: u64 = possible_moves & opponent_win;
        if forced_moves != 0 {
            if forced_moves & (forced_moves - 1) != 0 {
                // Opponent has more than one winning move and cannot be stopped
                0
            } else {
                // Opponent has exactly one winning move that can be blocked
                forced_moves & !(opponent_win >> 1)
            }
        } else {
            // Avoid playing below where an opponent can win
            possible_moves & !(opponent_win >> 1)
        }
    }

    /// The score if the game ends now: the count of the mover's unplayed
    /// pieces, plus the piece just placed when winning on this turn.
    pub open spec fn spec_pos_score(self, win_this_turn: bool) -> int {
        if win_this_turn {
            (43 - self.num_moves) / 2
        } else {
            (42 - self.num_moves) / 2
        }
    }

    /// Returns the score of the position if the game were to end this turn.
    pub fn position_score(&self, win_this_turn: bool) -> (r: i8)
        requires
            self.wf(),
        ensures
            r == self.spec_pos_score(win_this_turn),
            0 <= r <= 21,
    {
        proof {
            lemma_pop_columns(self.occupied_bb);
        }
        if win_this_turn {
            (42 - self.num_moves + 1) as i8 / 2
        } else {
            (42 - self.num_moves) as i8 / 2
        }
    }

    /// Returns a unique key for the current game state for use in the
    /// transposition table: the player bitboard plus the occupancy, which
    /// marks the first empty cell of each column.
    pub fn key(&self) -> (r: u64)
        requires
            self.wf(),
        ensures
            r == self.player_bb + self.occupied_bb,
    {
        proof {
            lemma_occ_bound(self.occupied_bb);
            lemma_bv_andnot(self.player_bb, self.occupied_bb, 0);
        }
        self.player_bb + self.occupied_bb
    }
}

/// When the opponent has a single immediate winning reply that does not sit
/// right above another of their winning cells, the only non-losing move is
/// that blocking cell.
pub proof fn lemma_non_losing_single_block(b: Board, m: u64)
    requires
        b.wf(),
        b.spec_possible() & spec_winning(b.spec_opponent(), b.occupied_bb) == m,
        m != 0,
        pop(m) == 1,
        m & (spec_winning(b.spec_opponent(), b.occupied_bb) >> 1u64) == 0,
    ensures
        spec_non_losing(b) == m,
{
    let ow = spec_winning(b.spec_opponent(), b.occupied_bb);
    lemma_pop_single(m);
    lemma_bv_andnot(m, ow >> 1u64, 0);
}

/// When the opponent has two or more immediate winning replies, no move
/// saves the mover: the non-losing move set is empty.
pub proof fn lemma_non_losing_lost(b: Board)
    requires
        b.wf(),
        pop(b.spec_possible() & spec_winning(b.spec_opponent(), b.occupied_bb)) >= 2,
    ensures
        spec_non_losing(b) == 0,
{
    let forced = b.spec_possible() & spec_winning(b.spec_opponent(), b.occupied_bb);
    lemma_pop_zero(forced);
    lemma_pop_multi(forced);
}

/// Powers of three, for bounding base-3 keys.
pub open spec fn pow3(m: nat) -> int
    decreases m,
{
    if m == 0 {
        1
    } else {
        3 * pow3((m - 1) as nat)
    }
}

/// Powers of three are positive.
proof fn lemma_pow3_pos(m: nat)
    ensures
        pow3(m) >= 1,
        m >= 1 ==> pow3(m) >= 3,
    decreases m,
{
    if m >= 1 {
        lemma_pow3_pos((m - 1) as nat);
    }
}

/// Powers of three multiply when exponents add.
proof fn lemma_pow3_adds(a: nat, b: nat)
    ensures
        pow3(a + b) == pow3(a) * pow3(b),
    decreases a,
{
    if a == 0 {
    } else {
        lemma_pow3_adds((a - 1) as nat, b);
        assert(3 * (pow3((a - 1) as nat) * pow3(b)) == (3 * pow3((a - 1) as nat)) * pow3(b))
            by (nonlinear_arith);
    }
}

/// The fifty-sixth power of three, in full: it bounds every accumulator
/// the base-3 key computation builds.
proof fn lemma_pow3_56()
    ensures
        pow3(56) == 523347633027360537213511521,
        pow3(8) == 6561,
{
    reveal_with_fuel(pow3, 9);
    assert(pow3(8) == 6561);
    lemma_pow3_adds(8, 8);
    assert(pow3(16) == 6561 * 6561);
    lemma_pow3_adds(16, 16);
    assert(pow3(32) == 43046721 * 43046721);
    lemma_pow3_adds(32, 16);
    assert(pow3(48) == 1853020188851841 * 43046721);
    lemma_pow3_adds(48, 8);
    assert(pow3(56) == 79766443076872509863361 * 6561);
}

/// The base-3 digits of column `c` from row `i` up to its top, folded onto
/// an accumulator, with one trailing zero digit closing the column: `1` for
/// a cell of the side to move, `2` for a cell of the opponent.
pub open spec fn spec_col_key3(b: Board, c: int, i: int, key: int) -> int
    decreases 7 - i,
{
    if i < 0 || i >= 7 {
        3 * key
    } else if (b.occupied_bb >> ((7 * c + i) as u64)) & 1 == 1 {
        spec_col_key3(
            b,
            c,
            i + 1,
            3 * key + (if (b.player_bb >> ((7 * c + i) as u64)) & 1 == 1 {
                1int
            } else {
                2int
            }),
        )
    } else {
        3 * key
    }
}

/// One column's worth of base-3 digits appended to an accumulator key.
pub open spec fn spec_partial_key3(b: Board, key: int, c: int) -> int {
    spec_col_key3(b, c, 0, key)
}

/// The base-3 key read with columns in ascending order, first `i` columns.
pub open spec fn spec_key3_fwd(b: Board, i: int) -> int
    decreases i,
{
    if i <= 0 {
        0
    } else {
        spec_partial_key3(b, spec_key3_fwd(b, i - 1), i - 1)
    }
}

/// The base-3 key read with columns in descending order, `i` columns in
/// from the right edge.
pub open spec fn spec_key3_bwd(b: Board, i: int) -> int
    decreases i,
{
    if i <= 0 {
        0
    } else {
        spec_partial_key3(b, spec_key3_bwd(b, i - 1), 7 - i)
    }
}

/// The symmetric base-3 key: the lesser of the two reading orders, with the
/// final trailing digit dropped.
pub open spec fn spec_key3(b: Board) -> int {
    if spec_key3_fwd(b, 7) < spec_key3_bwd(b, 7) {
        spec_key3_fwd(b, 7) / 3
    } else {
        spec_key3_bwd(b, 7) / 3
    }
}

/// Reading one bit of a column: through the column view or directly.
proof fn lemma_bv_col_bit(w: u64, c: u64, i: u64)
    by (bit_vector)
    requires
        c < 7,
        i < 7,
    ensures
        ((spec_col(w, c as int) >> i) & 1) == ((w >> ((7 * c + i) as u64)) & 1),
        col_ok(spec_col(w, c as int)) ==> (((w >> ((7 * c + i) as u64)) & 1 == 1) <==> i
            < col_height(spec_col(w, c as int))),
        (1u64 << ((7 * c + i) as u64)) != 0,
{
}

/// Folding a column multiplies the accumulator by at most `3^8` and never
/// shrinks it below three times its value.
proof fn lemma_col_key3_bound(b: Board, c: int, i: int, key: int)
    requires
        key >= 0,
        0 <= i <= 7,
    ensures
        3 * key <= spec_col_key3(b, c, i, key) <= pow3((8 - i) as nat) * key + pow3(
            (8 - i) as nat,
        ) - 1,
    decreases 7 - i,
{
    let m: nat = (8 - i) as nat;
    lemma_pow3_pos(m);
    if i >= 7 || !((b.occupied_bb >> ((7 * c + i) as u64)) & 1 == 1) {
        assert(3 * key <= pow3(m) * key + pow3(m) - 1) by (nonlinear_arith)
            requires
                pow3(m) >= 3,
                key >= 0,
        ;
    } else {
        let d: int = if (b.player_bb >> ((7 * c + i) as u64)) & 1 == 1 {
            1int
        } else {
            2int
        };
        lemma_col_key3_bound(b, c, i + 1, 3 * key + d);
        let p: int = pow3((7 - i) as nat);
        lemma_pow3_pos((7 - i) as nat);
        assert(pow3(m) == 3 * p);
        assert(p * (3 * key + d) + p - 1 <= (3 * p) * key + 3 * p - 1) by (nonlinear_arith)
            requires
                p >= 1,
                key >= 0,
                1 <= d <= 2,
        ;
        assert(3 * (3 * key + d) >= 3 * key) by (nonlinear_arith)
            requires
                key >= 0,
                d >= 1,
        ;
    }
}

impl Board {
    /// Folds the base-3 digits of one column onto an accumulator key.
    fn partial_key3(&self, key: u128, col: u8) -> (r: u128)
        requires
            self.wf(),
            col < 7,
            key < 0x1000000000000000000000000,
        ensures
            r == spec_partial_key3(*self, key as int, col as int),
            key * 3 <= r < key * 6561 + 6561,
    {
        proof {
            lemma_col_key3_bound(*self, col as int, 0, key as int);
            reveal_with_fuel(pow3, 9);
        }
        let h: u8 = self.pieces_in_col(col);
        let base: u8 = bottom_index(col);
        let mut acc: u128 = key;
        let mut i: u8 = 0;
        while i < h
            invariant
                self.wf(),
                col < 7,
                i <= h,
                base == 7 * col,
                key < 0x1000000000000000000000000,
                h == col_height(spec_col(self.occupied_bb, col as int)),
                acc as int <= pow3(i as nat) * key + pow3(i as nat) - 1,
                spec_col_key3(*self, col as int, i as int, acc as int) == spec_col_key3(
                    *self,
                    col as int,
                    0,
                    key as int,
                ),
            decreases h - i,
        {
            proof {
                lemma_bv_col_bit(self.occupied_bb, col as u64, i as u64);
                lemma_bv_col_bit(self.player_bb, col as u64, i as u64);
                crate::bitboard::lemma_bit_test(self.player_bb, (base + i) as u64);
                reveal_with_fuel(pow3, 9);
                lemma_pow3_pos(i as nat);
                lemma_pow3_mono((i + 1) as nat, 6);
                assert(3 * (pow3(i as nat) * key + pow3(i as nat) - 1) + 2 <= pow3(
                    (i + 1) as nat,
                ) * key + pow3((i + 1) as nat) - 1) by (nonlinear_arith)
                    requires
                        pow3((i + 1) as nat) == 3 * pow3(i as nat),
                ;
                assert(pow3((i + 1) as nat) * key + pow3((i + 1) as nat) - 1 <= pow3(6) * key
                    + pow3(6) - 1) by (nonlinear_arith)
                    requires
                        pow3((i + 1) as nat) <= pow3(6),
                        key >= 0,
                ;
                assert(pow3(6) == 729);
                lemma_pow3_mono(i as nat, 6);
                assert(acc as int <= 729 * 0x1000000000000000000000000 + 728) by (nonlinear_arith)
                    requires
                        acc as int <= pow3(i as nat) * key + pow3(i as nat) - 1,
                        1 <= pow3(i as nat) <= 729,
                        0 <= key < 0x1000000000000000000000000,
                ;
            }
            let digit: u128 = if self.player_bb & (1u64 << ((base + i) as u64)) != 0 {
                1
            } else {
                2
            };
            acc = acc * 3 + digit;
            i = i + 1;
        }
        proof {
            lemma_bv_col_bit(self.occupied_bb, col as u64, i as u64);
            reveal_with_fuel(pow3, 9);
            lemma_pow3_mono(i as nat, 6);
            lemma_col_key3_bound(*self, col as int, 0, key as int);
            assert(pow3(6) == 729);
            assert(acc as int <= 729 * 0x1000000000000000000000000 + 728) by (nonlinear_arith)
                requires
                    acc as int <= pow3(i as nat) * key + pow3(i as nat) - 1,
                    1 <= pow3(i as nat) <= 729,
                    0 <= key < 0x1000000000000000000000000,
            ;
            assert(spec_col_key3(*self, col as int, i as int, acc as int) == 3 * acc);
            assert(pow3(8) == 6561);
            assert(3 * (key as int) <= spec_partial_key3(*self, key as int, col as int) <= 6561
                * (key as int) + 6560);
        }
        acc * 3
    }

    /// Returns a symmetric base 3 key for the current game state: the same
    /// value is produced for a position and its mirror image.
    pub fn key3(&self) -> (r: u128)
        requires
            self.wf(),
        ensures
            r == spec_key3(*self),
    {
        proof {
            lemma_pow3_56();
        }
        let mut key_forward: u128 = 0;
        let mut c: u8 = 0;
        while c < 7
            invariant
                self.wf(),
                c <= 7,
                key_forward == spec_key3_fwd(*self, c as int),
                key_forward as int <= pow3((8 * c) as nat) - 1,
            decreases 7 - c,
        {
            proof {
                lemma_pow3_adds((8 * c) as nat, 8);
                lemma_pow3_pos((8 * c) as nat);
                lemma_pow3_56();
                lemma_pow3_mono((8 * c + 8) as nat, 56);
                assert(6561 * (pow3((8 * c) as nat) - 1) + 6561 <= pow3((8 * c) as nat) * 6561)
                    by (nonlinear_arith);
            }
            key_forward = self.partial_key3(key_forward, c);
            c = c + 1;
        }
        let mut key_backward: u128 = 0;
        let mut i: u8 = 0;
        while i < 7
            invariant
                self.wf(),
                i <= 7,
                key_backward == spec_key3_bwd(*self, i as int),
                key_backward as int <= pow3((8 * i) as nat) - 1,
            decreases 7 - i,
        {
            proof {
                lemma_pow3_adds((8 * i) as nat, 8);
                lemma_pow3_pos((8 * i) as nat);
                lemma_pow3_56();
                lemma_pow3_mono((8 * i + 8) as nat, 56);
                assert(6561 * (pow3((8 * i) as nat) - 1) + 6561 <= pow3((8 * i) as nat) * 6561)
                    by (nonlinear_arith);
            }
            key_backward = self.partial_key3(key_backward, 6 - i);
            i = i + 1;
        }
        if key_forward < key_backward {
            key_forward / 3
        } else {
            key_backward / 3
        }
    }
}

/// Powers of three grow with the exponent.
proof fn lemma_pow3_mono(a: nat, b: nat)
    requires
        a <= b,
    ensures
        pow3(a) <= pow3(b),
    decreases b,
{
    if a < b {
        lemma_pow3_mono(a, (b - 1) as nat);
        lemma_pow3_pos((b - 1) as nat);
    }
}

impl Board {
    /// The same position with the columns reflected horizontally.
    pub open spec fn spec_mirrored(self) -> Board {
        Board {
            player_bb: spec_mirror(self.player_bb),
            occupied_bb: spec_mirror(self.occupied_bb),
            num_moves: self.num_moves,
        }
    }
}

/// Columns with the same contents fold to the same base-3 digits.
proof fn lemma_col_key3_eq(b1: Board, b2: Board, c1: int, c2: int, i: int, key: int)
    requires
        0 <= c1 < 7,
        0 <= c2 < 7,
        0 <= i,
        spec_col(b1.occupied_bb, c1) == spec_col(b2.occupied_bb, c2),
        spec_col(b1.player_bb, c1) == spec_col(b2.player_bb, c2),
    ensures
        spec_col_key3(b1, c1, i, key) == spec_col_key3(b2, c2, i, key),
    decreases 7 - i,
{
    if i < 7 {
        lemma_bv_col_bit(b1.occupied_bb, c1 as u64, i as u64);
        lemma_bv_col_bit(b2.occupied_bb, c2 as u64, i as u64);
        lemma_bv_col_bit(b1.player_bb, c1 as u64, i as u64);
        lemma_bv_col_bit(b2.player_bb, c2 as u64, i as u64);
        if (b1.occupied_bb >> ((7 * c1 + i) as u64)) & 1 == 1 {
            let d: int = if (b1.player_bb >> ((7 * c1 + i) as u64)) & 1 == 1 {
                1int
            } else {
                2int
            };
            lemma_col_key3_eq(b1, b2, c1, c2, i + 1, 3 * key + d);
        }
    }
}

/// Appending a column of the mirrored position reads the opposite column
/// of the original.
proof fn lemma_partial_key3_mirror(b: Board, key: int, c: int)
    requires
        b.wf(),
        0 <= c < 7,
    ensures
        spec_partial_key3(b.spec_mirrored(), key, c) == spec_partial_key3(b, key, 6 - c),
{
    lemma_occ_bound(b.occupied_bb);
    lemma_bv_in_full(b.occupied_bb);
    lemma_bv_andnot(b.player_bb, b.occupied_bb, FULL_BOARD_MASK);
    lemma_mirror_cols(b.occupied_bb, c as u64);
    lemma_mirror_cols(b.player_bb, c as u64);
    lemma_col_key3_eq(b.spec_mirrored(), b, c, 6 - c, 0, key);
}

/// Reading the mirrored position forward is reading the original backward,
/// and the other way round.
proof fn lemma_key3_orders_mirror(b: Board, i: int)
    requires
        b.wf(),
        0 <= i <= 7,
    ensures
        spec_key3_fwd(b.spec_mirrored(), i) == spec_key3_bwd(b, i),
        spec_key3_bwd(b.spec_mirrored(), i) == spec_key3_fwd(b, i),
    decreases i,
{
    if i > 0 {
        lemma_key3_orders_mirror(b, i - 1);
        lemma_partial_key3_mirror(b, spec_key3_bwd(b, i - 1), i - 1);
        lemma_partial_key3_mirror(b, spec_key3_fwd(b, i - 1), 7 - i);
    }
}

/// The symmetric base-3 key of a position equals that of its mirror image.
pub proof fn lemma_key3_mirror(b: Board)
    requires
        b.wf(),
    ensures
        spec_key3(b.spec_mirrored()) == spec_key3(b),
{
    lemma_key3_orders_mirror(b, 7);
}

/// A column is open exactly when its stack is not full.
pub proof fn lemma_open_iff_not_full(b: Board, c: int)
    requires
        b.wf(),
        0 <= c < 7,
    ensures
        b.spec_is_open(c) <==> spec_col(b.occupied_bb, c) != 63,
{
    lemma_bv_play(b.occupied_bb, c as u64, c as u64);
}

/// The non-losing move set is a set of landing cells: a nonzero column
/// extract of it is exactly that column's landing cell, and the column is
/// open.
pub proof fn lemma_nlm_move(b: Board, c: int)
    requires
        b.wf(),
        0 <= c < 7,
        spec_non_losing(b) & spec_column_mask(c) != 0,
    ensures
        b.spec_is_open(c),
        spec_non_losing(b) & spec_column_mask(c) == b.spec_move_bit(c),
        b.spec_is_move(spec_non_losing(b) & spec_column_mask(c)),
{
    let p = b.spec_possible();
    let ow = spec_winning(b.spec_opponent(), b.occupied_bb);
    let ow1 = ow >> 1u64;
    let f = p & ow;
    let nlm = spec_non_losing(b);
    let cm = spec_column_mask(c);
    let m = nlm & cm;
    let s = b.spec_move_bit(c);
    lemma_nlm_subset(b);
    // this column's share of the non-losing set sits inside the column's
    // landing cell
    lemma_bv_andnot(nlm, p, cm);
    assert(m & s == m);
    lemma_bv_play(b.occupied_bb, c as u64, c as u64);
    if !b.spec_is_open(c) {
        lemma_bv_andnot(m, 0, 0);
        assert(m == 0);
    }
    // a nonzero subset of a single bit is that bit
    lemma_pop_single(s);
    lemma_pop_xor_subset(m, s);
    lemma_pop_zero(m);
    lemma_pop_zero((s ^ m) as u64);
    lemma_bv_eq(s ^ m, 0);
    lemma_bv_eq(s, m);
}

/// A landing cell is in particular a word that drops a piece when `or`-ed
/// into the occupancy.
pub proof fn lemma_is_move_play_word(b: Board, m: u64)
    requires
        b.spec_is_move(m),
    ensures
        b.spec_is_play_word(m),
{
    let c = choose|c: int|
        0 <= c < 7 && b.spec_is_open(c) && m == b.spec_move_bit(c) && m != 0;
    assert((b.occupied_bb | m) == b.spec_play_col(c).occupied_bb);
}

/// The initial position is well-formed.
pub proof fn lemma_empty_wf()
    ensures
        (Board { player_bb: 0, occupied_bb: 0, num_moves: 0 }).wf(),
{
    lemma_empty_cols();
}

/// A column just played is not empty.
pub proof fn lemma_played_col_nonempty(b: Board, c: int)
    requires
        b.wf(),
        0 <= c < 7,
        b.spec_is_open(c),
    ensures
        spec_col(b.spec_play_col(c).occupied_bb, c) != 0,
{
    lemma_bv_play(b.occupied_bb, c as u64, c as u64);
}

/// Where a detected four-in-a-row can sit: the lowest cell of a line inside
/// the playable area keeps every cell of the line inside it too.
pub proof fn lemma_bv_line_bounds(b: u64, k: u64)
    by (bit_vector)
    requires
        b & 0xfdfbf7efdfbf == b,
        k < 64,
    ensures
        (spec_line_asc(b) >> k) & 1 == 1 ==> k % 7 <= 2 && k / 7 <= 3,
        (spec_line_desc(b) >> k) & 1 == 1 ==> 3 <= k % 7 <= 5 && k / 7 <= 3,
        (spec_line_horiz(b) >> k) & 1 == 1 ==> k % 7 <= 5 && k / 7 <= 3,
        (spec_line_vert(b) >> k) & 1 == 1 ==> k % 7 <= 2 && k / 7 <= 6,
{
}

/// The opponent's pieces of a well-formed board stay inside the playable
/// area.
pub proof fn lemma_opponent_in_full(b: Board)
    requires
        b.wf(),
    ensures
        b.spec_opponent() & 0xfdfbf7efdfbf == b.spec_opponent(),
        b.player_bb & 0xfdfbf7efdfbf == b.player_bb,
        b.occupied_bb & 0xfdfbf7efdfbf == b.occupied_bb,
{
    lemma_bv_in_full(b.occupied_bb);
    lemma_bv_xor(b.player_bb, b.occupied_bb);
    lemma_pop_xor_subset(b.player_bb, b.occupied_bb);
    lemma_bv_andnot(b.player_bb, b.occupied_bb, FULL_BOARD_MASK);
    lemma_bv_andnot(b.spec_opponent(), b.occupied_bb, FULL_BOARD_MASK);
}

/// A set winning-cell bit comes from one of the directional detectors.
proof fn lemma_bv_win_split(b: u64, occ: u64, k: u64)
    by (bit_vector)
    requires
        k < 64,
        occ & 0xfdfbf7efdfbf == occ,
        (spec_winning(b, occ) >> k) & 1 == 1,
    ensures
        (occ >> k) & 1 == 0,
        ((((b << 1u64) & (b << 2u64)) & (b << 3u64)) >> k) & 1 == 1 || ((((b << 6u64) & (b
            << 12u64)) & ((b << 18u64) | (b >> 6u64))) >> k) & 1 == 1 || ((((b >> 6u64) & (b
            >> 12u64)) & ((b >> 18u64) | (b << 6u64))) >> k) & 1 == 1 || ((((b << 7u64) & (b
            << 14u64)) & ((b << 21u64) | (b >> 7u64))) >> k) & 1 == 1 || ((((b >> 7u64) & (b
            >> 14u64)) & ((b >> 21u64) | (b << 7u64))) >> k) & 1 == 1 || ((((b << 8u64) & (b
            << 16u64)) & ((b << 24u64) | (b >> 8u64))) >> k) & 1 == 1 || ((((b >> 8u64) & (b
            >> 16u64)) & ((b >> 24u64) | (b << 8u64))) >> k) & 1 == 1,
{
}

/// Completing a vertical triple in place gives a vertical line.
proof fn lemma_bv_win_vert(b: u64, k: u64)
    by (bit_vector)
    requires
        k < 64,
        ((((b << 1u64) & (b << 2u64)) & (b << 3u64)) >> k) & 1 == 1,
    ensures
        spec_line_vert(b | (1u64 << k)) != 0,
{
}

/// Completing an ascending-diagonal pattern in place gives such a line.
proof fn lemma_bv_win_asc(b: u64, k: u64)
    by (bit_vector)
    requires
        k < 64,
        ((((b << 6u64) & (b << 12u64)) & ((b << 18u64) | (b >> 6u64))) >> k) & 1 == 1 || ((((b
            >> 6u64) & (b >> 12u64)) & ((b >> 18u64) | (b << 6u64))) >> k) & 1 == 1,
    ensures
        spec_line_desc(b | (1u64 << k)) != 0,
{
}

/// Completing a horizontal pattern in place gives a horizontal line.
proof fn lemma_bv_win_horiz(b: u64, k: u64)
    by (bit_vector)
    requires
        k < 64,
        ((((b << 7u64) & (b << 14u64)) & ((b << 21u64) | (b >> 7u64))) >> k) & 1 == 1 || ((((b
            >> 7u64) & (b >> 14u64)) & ((b >> 21u64) | (b << 7u64))) >> k) & 1 == 1,
    ensures
        spec_line_horiz(b | (1u64 << k)) != 0,
{
}

/// Completing a descending-diagonal pattern in place gives such a line.
proof fn lemma_bv_win_desc(b: u64, k: u64)
    by (bit_vector)
    requires
        k < 64,
        ((((b << 8u64) & (b << 16u64)) & ((b << 24u64) | (b >> 8u64))) >> k) & 1 == 1 || ((((b
            >> 8u64) & (b >> 16u64)) & ((b >> 24u64) | (b << 8u64))) >> k) & 1 == 1,
    ensures
        spec_line_asc(b | (1u64 << k)) != 0,
{
}

/// A cell the winning-move detector reports really completes a line:
/// dropping a piece there gives the piece set four in a row.
pub proof fn lemma_winning_completes(b: u64, occ: u64, k: u64)
    requires
        k < 64,
        occ & 0xfdfbf7efdfbf == occ,
        (spec_winning(b, occ) >> k) & 1 == 1,
    ensures
        spec_has_line((b | (1u64 << k)) as u64),
        (occ >> k) & 1 == 0,
{
    lemma_bv_win_split(b, occ, k);
    if ((((b << 1u64) & (b << 2u64)) & (b << 3u64)) >> k) & 1 == 1 {
        lemma_bv_win_vert(b, k);
    } else if ((((b << 6u64) & (b << 12u64)) & ((b << 18u64) | (b >> 6u64))) >> k) & 1 == 1 || ((((
    b >> 6u64) & (b >> 12u64)) & ((b >> 18u64) | (b << 6u64))) >> k) & 1 == 1 {
        lemma_bv_win_asc(b, k);
    } else if ((((b << 7u64) & (b << 14u64)) & ((b << 21u64) | (b >> 7u64))) >> k) & 1 == 1 || ((((
    b >> 7u64) & (b >> 14u64)) & ((b >> 21u64) | (b << 7u64))) >> k) & 1 == 1 {
        lemma_bv_win_horiz(b, k);
    } else {
        lemma_bv_win_desc(b, k);
    }
}

/// A landing cell is the landing cell of its own column.
pub proof fn lemma_bv_possible_bit(occ: u64, k: u64)
    by (bit_vector)
    requires
        k < 64,
        occ >> 49 == 0,
        col_ok(spec_col(occ, 0)),
        col_ok(spec_col(occ, 1)),
        col_ok(spec_col(occ, 2)),
        col_ok(spec_col(occ, 3)),
        col_ok(spec_col(occ, 4)),
        col_ok(spec_col(occ, 5)),
        col_ok(spec_col(occ, 6)),
        (spec_possible_of(occ) >> k) & 1 == 1,
    ensures
        k < 49,
        spec_possible_of(occ) & spec_column_mask((k / 7) as int) == 1u64 << k,
        occ & spec_top_mask((k / 7) as int) == 0,
        (occ >> k) & 1 == 0,
        (0xfdfbf7efdfbfu64 >> k) & 1 == 1,
{
}

/// Winning cells do not depend on cells that stay empty: a winning cell
/// still empty on a fuller board is still a winning cell there.
pub proof fn lemma_bv_winning_monotone(b: u64, occ1: u64, occ2: u64, k: u64)
    by (bit_vector)
    requires
        k < 64,
        occ1 & 0xfdfbf7efdfbf == occ1,
        (spec_winning(b, occ1) >> k) & 1 == 1,
        (occ2 >> k) & 1 == 0,
        occ2 & 0xfdfbf7efdfbf == occ2,
    ensures
        (spec_winning(b, occ2) >> k) & 1 == 1,
{
}

/// A set bit of the landing-cell set names an open column whose landing
/// cell it is.
pub proof fn lemma_possible_in_board(b: Board, k: u64)
    requires
        b.wf(),
        k < 64,
        (b.spec_possible() >> k) & 1 == 1,
    ensures
        k < 49,
        b.spec_is_open((k / 7) as int),
        b.spec_move_bit((k / 7) as int) == 1u64 << k,
{
    lemma_bv_possible_bit(b.occupied_bb, k);
}

/// Two column stacks with equal player-plus-occupancy sums coincide: the
/// sum places a marker bit just above each stack.
proof fn lemma_bv_key_col_inj(a1: u64, o1: u64, a2: u64, o2: u64)
    by (bit_vector)
    requires
        col_ok(o1),
        col_ok(o2),
        a1 & o1 == a1,
        a2 & o2 == a2,
        a1 + o1 == a2 + o2,
    ensures
        a1 == a2,
        o1 == o2,
{
}

/// The transposition key decomposes column by column: no column's sum
/// carries into the next.
proof fn lemma_bv_key_cols(pl: u64, occ: u64, c: u64)
    by (bit_vector)
    requires
        c < 7,
        occ >> 49 == 0,
        col_ok(spec_col(occ, 0)),
        col_ok(spec_col(occ, 1)),
        col_ok(spec_col(occ, 2)),
        col_ok(spec_col(occ, 3)),
        col_ok(spec_col(occ, 4)),
        col_ok(spec_col(occ, 5)),
        col_ok(spec_col(occ, 6)),
        pl & occ == pl,
    ensures
        ((pl + occ) as u64) >> 49 == 0,
        spec_col((pl + occ) as u64, c as int) == spec_col(pl, c as int) + spec_col(occ, c as int),
{
}

/// Words that agree on every column agree.
proof fn lemma_bv_cols_eq(x: u64, y: u64)
    by (bit_vector)
    requires
        x >> 49 == 0,
        y >> 49 == 0,
        spec_col(x, 0) == spec_col(y, 0),
        spec_col(x, 1) == spec_col(y, 1),
        spec_col(x, 2) == spec_col(y, 2),
        spec_col(x, 3) == spec_col(y, 3),
        spec_col(x, 4) == spec_col(y, 4),
        spec_col(x, 5) == spec_col(y, 5),
        spec_col(x, 6) == spec_col(y, 6),
    ensures
        x == y,
{
}

/// The transposition key `player + occupied` is collision-free: two
/// well-formed positions with the same key are the same position.
pub proof fn lemma_key_injective(b1: Board, b2: Board)
    requires
        b1.wf(),
        b2.wf(),
        b1.player_bb + b1.occupied_bb == b2.player_bb + b2.occupied_bb,
    ensures
        b1 == b2,
{
    let pl1 = b1.player_bb;
    let occ1 = b1.occupied_bb;
    let pl2 = b2.player_bb;
    let occ2 = b2.occupied_bb;
    assert forall|c: int| 0 <= c < 7 implies #[trigger] spec_col(pl1, c) == spec_col(pl2, c) by {
        lemma_bv_key_cols(pl1, occ1, c as u64);
        lemma_bv_key_cols(pl2, occ2, c as u64);
        lemma_bv_col_le(occ1, pl1, c as u64);
        lemma_bv_col_le(occ2, pl2, c as u64);
        lemma_bv_key_col_inj(
            spec_col(pl1, c),
            spec_col(occ1, c),
            spec_col(pl2, c),
            spec_col(occ2, c),
        );
    }
    assert forall|c: int| 0 <= c < 7 implies #[trigger] spec_col(occ1, c) == spec_col(occ2, c) by {
        lemma_bv_key_cols(pl1, occ1, c as u64);
        lemma_bv_key_cols(pl2, occ2, c as u64);
        lemma_bv_col_le(occ1, pl1, c as u64);
        lemma_bv_col_le(occ2, pl2, c as u64);
        lemma_bv_key_col_inj(
            spec_col(pl1, c),
            spec_col(occ1, c),
            spec_col(pl2, c),
            spec_col(occ2, c),
        );
    }
    lemma_bv_full_sub(occ1, pl1);
    lemma_bv_full_sub(occ2, pl2);
    lemma_bv_cols_eq(pl1, pl2);
    lemma_bv_cols_eq(occ1, occ2);
}

/// Winning cells lie inside the playable area.
pub proof fn lemma_bv_winning_in_full(b: u64, occ: u64)
    by (bit_vector)
    requires
        occ & 0xfdfbf7efdfbf == occ,
    ensures
        spec_winning(b, occ) & 0xfdfbf7efdfbf == spec_winning(b, occ),
{
}

/// A single set bit at a known position is that power of two.
pub proof fn lemma_bv_single_tz(x: u64, k: u64)
    by (bit_vector)
    requires
        k < 64,
        x != 0,
        x & ((x - 1) as u64) == 0,
        (x >> k) & 1 == 1,
    ensures
        x == 1u64 << k,
{
}

/// When no move survives the pruning, the opponent keeps a playable
/// winning cell whatever column the mover fills: either a second threat
/// stands in another column, or the move itself uncovers the threat above
/// it.
proof fn lemma_bv_threat_survives(occ: u64, ow: u64, c: u64)
    by (bit_vector)
    requires
        c < 7,
        occ >> 49 == 0,
        col_ok(spec_col(occ, 0)),
        col_ok(spec_col(occ, 1)),
        col_ok(spec_col(occ, 2)),
        col_ok(spec_col(occ, 3)),
        col_ok(spec_col(occ, 4)),
        col_ok(spec_col(occ, 5)),
        col_ok(spec_col(occ, 6)),
        occ & spec_top_mask(c as int) == 0,
        ow & 0xfdfbf7efdfbf == ow,
        ({
            let p = spec_possible_of(occ);
            let f = p & ow;
            ||| (f != 0 && f & ((f - 1) as u64) != 0)
            ||| (f != 0 && f & !(ow >> 1u64) == 0)
            ||| (f == 0 && p & !(ow >> 1u64) == 0)
        }),
    ensures
        spec_possible_of(
            (occ + (spec_possible_of(occ) & spec_column_mask(c as int))) as u64,
        ) & ow != 0,
{
}

/// A line of the enlarged set that the smaller set did not have runs
/// through the added cell, horizontally.
proof fn lemma_bv_new_line_horiz(b: u64, k: u64)
    by (bit_vector)
    requires
        k < 64,
        spec_line_horiz((b | (1u64 << k)) as u64) != 0,
        spec_line_horiz(b) == 0,
    ensures
        ((((b << 7u64) & (b << 14u64)) & ((b << 21u64) | (b >> 7u64))) >> k) & 1 == 1 || ((((b
            >> 7u64) & (b >> 14u64)) & ((b >> 21u64) | (b << 7u64))) >> k) & 1 == 1,
{
}

/// The same, for the diagonal the detector reads with shift six.
proof fn lemma_bv_new_line_asc(b: u64, k: u64)
    by (bit_vector)
    requires
        k < 64,
        spec_line_desc((b | (1u64 << k)) as u64) != 0,
        spec_line_desc(b) == 0,
    ensures
        ((((b << 6u64) & (b << 12u64)) & ((b << 18u64) | (b >> 6u64))) >> k) & 1 == 1 || ((((b
            >> 6u64) & (b >> 12u64)) & ((b >> 18u64) | (b << 6u64))) >> k) & 1 == 1,
{
}

/// The same, for the diagonal the detector reads with shift eight.
proof fn lemma_bv_new_line_desc(b: u64, k: u64)
    by (bit_vector)
    requires
        k < 64,
        spec_line_asc((b | (1u64 << k)) as u64) != 0,
        spec_line_asc(b) == 0,
    ensures
        ((((b << 8u64) & (b << 16u64)) & ((b << 24u64) | (b >> 8u64))) >> k) & 1 == 1 || ((((b
            >> 8u64) & (b >> 16u64)) & ((b >> 24u64) | (b << 8u64))) >> k) & 1 == 1,
{
}

/// A new vertical line through a landing cell completes a stack of three:
/// cells above a landing cell are empty, so the added cell tops its line.
proof fn lemma_bv_new_line_vert(b: u64, occ: u64, k: u64)
    by (bit_vector)
    requires
        k < 64,
        occ >> 49 == 0,
        col_ok(spec_col(occ, 0)),
        col_ok(spec_col(occ, 1)),
        col_ok(spec_col(occ, 2)),
        col_ok(spec_col(occ, 3)),
        col_ok(spec_col(occ, 4)),
        col_ok(spec_col(occ, 5)),
        col_ok(spec_col(occ, 6)),
        b & occ == b,
        (spec_possible_of(occ) >> k) & 1 == 1,
        spec_line_vert((b | (1u64 << k)) as u64) != 0,
        spec_line_vert(b) == 0,
    ensures
        ((((b << 1u64) & (b << 2u64)) & (b << 3u64)) >> k) & 1 == 1,
{
}

/// A completion pattern at an empty playable cell makes it a winning cell.
proof fn lemma_bv_completion_to_winning(b: u64, occ: u64, k: u64)
    by (bit_vector)
    requires
        k < 64,
        (occ >> k) & 1 == 0,
        (0xfdfbf7efdfbfu64 >> k) & 1 == 1,
        ((((b << 1u64) & (b << 2u64)) & (b << 3u64)) >> k) & 1 == 1 || ((((b << 6u64) & (b
            << 12u64)) & ((b << 18u64) | (b >> 6u64))) >> k) & 1 == 1 || ((((b >> 6u64) & (b
            >> 12u64)) & ((b >> 18u64) | (b << 6u64))) >> k) & 1 == 1 || ((((b << 7u64) & (b
            << 14u64)) & ((b << 21u64) | (b >> 7u64))) >> k) & 1 == 1 || ((((b >> 7u64) & (b
            >> 14u64)) & ((b >> 21u64) | (b << 7u64))) >> k) & 1 == 1 || ((((b << 8u64) & (b
            << 16u64)) & ((b << 24u64) | (b >> 8u64))) >> k) & 1 == 1 || ((((b >> 8u64) & (b
            >> 16u64)) & ((b >> 24u64) | (b << 8u64))) >> k) & 1 == 1,
    ensures
        (spec_winning(b, occ) >> k) & 1 == 1,
{
}

/// A line that appears when a piece lands on an empty playable cell means
/// the cell was a winning cell of the piece set.
pub proof fn lemma_line_needs_winning_cell(b: Board, k: u64)
    requires
        b.wf(),
        k < 64,
        b.player_bb & b.occupied_bb == b.player_bb,
        (b.spec_possible() >> k) & 1 == 1,
        spec_has_line((b.player_bb | (1u64 << k)) as u64),
        !spec_has_line(b.player_bb),
    ensures
        (spec_winning(b.player_bb, b.occupied_bb) >> k) & 1 == 1,
{
    let pl = b.player_bb;
    let occ = b.occupied_bb;
    lemma_bv_possible_bit(occ, k);
    if spec_line_vert((pl | (1u64 << k)) as u64) != 0 {
        lemma_bv_new_line_vert(pl, occ, k);
    } else if spec_line_desc((pl | (1u64 << k)) as u64) != 0 {
        lemma_bv_new_line_asc(pl, k);
    } else if spec_line_horiz((pl | (1u64 << k)) as u64) != 0 {
        lemma_bv_new_line_horiz(pl, k);
    } else {
        lemma_bv_new_line_desc(pl, k);
    }
    lemma_bv_completion_to_winning(pl, occ, k);
}

/// When no move survives the pruning, then whatever open column the mover
/// fills, the new side to move can win at once.
/// A surviving threat makes the next side to move able to win at once:
/// an old winning cell of the incoming mover that is playable after the
/// move is a playable winning cell of the child position.
pub proof fn lemma_threat_to_can_win(b: Board, c: int)
    requires
        b.wf(),
        0 <= c < 7,
        b.spec_is_open(c),
        b.spec_play_col(c).spec_possible() & spec_winning(b.spec_opponent(), b.occupied_bb) != 0,
    ensures
        spec_winning(b.spec_play_col(c).player_bb, b.spec_play_col(c).occupied_bb) & b.spec_play_col(
            c,
        ).spec_possible() != 0,
{
    let occ = b.occupied_bb;
    let opp = b.spec_opponent();
    let ow = spec_winning(opp, occ);
    let child = b.spec_play_col(c);
    lemma_opponent_in_full(b);
    lemma_play_col_wf(b, c);
    let pos2 = child.spec_possible();
    vstd::std_specs::bits::axiom_u64_trailing_zeros(pos2 & ow);
    let k = vstd::std_specs::bits::u64_trailing_zeros(pos2 & ow) as u64;
    crate::bitboard::lemma_bit_and(pos2, ow, k);
    lemma_bv_possible_bit(child.occupied_bb, k);
    lemma_opponent_in_full(child);
    lemma_bv_winning_monotone(opp, occ, child.occupied_bb, k);
    crate::bitboard::lemma_bit_and(spec_winning(opp, child.occupied_bb), pos2, k);
    assert(child.player_bb == opp);
}

pub proof fn lemma_no_escape_keeps_threat(b: Board, c: int)
    requires
        b.wf(),
        0 <= c < 7,
        b.spec_is_open(c),
        spec_non_losing(b) == 0,
    ensures
        spec_winning(b.spec_play_col(c).player_bb, b.spec_play_col(c).occupied_bb) & b.spec_play_col(
            c,
        ).spec_possible() != 0,
{
    let occ = b.occupied_bb;
    let opp = b.spec_opponent();
    let ow = spec_winning(opp, occ);
    let p = b.spec_possible();
    let m = b.spec_move_bit(c);
    let child = b.spec_play_col(c);
    lemma_opponent_in_full(b);
    lemma_bv_winning_in_full(opp, occ);
    let f = p & ow;
    assert((f != 0 && f & ((f - 1) as u64) != 0) || (f != 0 && f & !(ow >> 1u64) == 0) || (f == 0
        && p & !(ow >> 1u64) == 0));
    lemma_bv_threat_survives(occ, ow, c as u64);
    lemma_play_col_wf(b, c);
    assert(child.occupied_bb == (occ + m) as u64);
    lemma_threat_to_can_win(b, c);
}

/// A playable-area bit lies inside the mask of its own column, and the
/// masks of distinct columns share no bits.
pub proof fn lemma_bv_col_of_bit(k: u64, c: u64, d: u64)
    by (bit_vector)
    requires
        k < 64,
        c < 7,
        d < 7,
    ensures
        (0xfdfbf7efdfbfu64 >> k) & 1 == 1 ==> (k < 49 && ((spec_column_mask((k / 7) as int) >> k)
            & 1 == 1)),
        c != d ==> spec_column_mask(c as int) & spec_column_mask(d as int) == 0,
{
}

/// The immediate-win test is exact: the mover has a playable winning cell
/// exactly when some open column completes a real four-in-a-row for them.
pub proof fn lemma_can_win_next_exact(b: Board)
    requires
        b.wf(),
        !spec_has_line(b.player_bb),
    ensures
        (spec_winning(b.player_bb, b.occupied_bb) & b.spec_possible() != 0) <==> exists|c: int|
            0 <= c < 7 && #[trigger] b.spec_is_open(c) && spec_has_line(
                b.player_bb | b.spec_move_bit(c),
            ),
{
    let pl = b.player_bb;
    let occ = b.occupied_bb;
    let p = b.spec_possible();
    let w = spec_winning(pl, occ) & p;
    if w != 0 {
        vstd::std_specs::bits::axiom_u64_trailing_zeros(w);
        let k = vstd::std_specs::bits::u64_trailing_zeros(w) as u64;
        crate::bitboard::lemma_bit_and(spec_winning(pl, occ), p, k);
        lemma_possible_in_board(b, k);
        lemma_opponent_in_full(b);
        lemma_winning_completes(pl, occ, k);
        let c = (k / 7) as int;
        assert(b.spec_is_open(c) && spec_has_line(pl | b.spec_move_bit(c)));
    }
    if (exists|c: int|
        0 <= c < 7 && #[trigger] b.spec_is_open(c) && spec_has_line(pl | b.spec_move_bit(c))) {
        let c = choose|c: int|
            0 <= c < 7 && #[trigger] b.spec_is_open(c) && spec_has_line(pl | b.spec_move_bit(c));
        let m = b.spec_move_bit(c);
        lemma_play_col_wf(b, c);
        lemma_play_bb_wf(b, m);
        crate::bits::lemma_pop_single(m);
        vstd::std_specs::bits::axiom_u64_trailing_zeros(m);
        let k = vstd::std_specs::bits::u64_trailing_zeros(m) as u64;
        lemma_bv_single_tz(m, k);
        crate::bitboard::lemma_bit_and(p, spec_column_mask(c), k);
        lemma_line_needs_winning_cell(b, k);
        crate::bitboard::lemma_bit_and(spec_winning(pl, occ), p, k);
    }
}

/// Playing a move the pruning kept removes every immediate winning reply:
/// other columns' threats were blocked or absent, and the landing cell sits
/// under no threat.
proof fn lemma_bv_nlm_safe(occ: u64, b2: u64, c: u64)
    by (bit_vector)
    requires
        c < 7,
        occ >> 49 == 0,
        col_ok(spec_col(occ, 0)),
        col_ok(spec_col(occ, 1)),
        col_ok(spec_col(occ, 2)),
        col_ok(spec_col(occ, 3)),
        col_ok(spec_col(occ, 4)),
        col_ok(spec_col(occ, 5)),
        col_ok(spec_col(occ, 6)),
        ({
            let p = spec_possible_of(occ);
            let ow = spec_winning(b2, occ);
            let f = p & ow;
            let nlmv = if f != 0 {
                if f & ((f - 1) as u64) != 0 {
                    0u64
                } else {
                    f & !(ow >> 1u64)
                }
            } else {
                p & !(ow >> 1u64)
            };
            nlmv & spec_column_mask(c as int) != 0
        }),
    ensures
        ({
            let p = spec_possible_of(occ);
            let ow = spec_winning(b2, occ);
            let f = p & ow;
            let nlmv = if f != 0 {
                if f & ((f - 1) as u64) != 0 {
                    0u64
                } else {
                    f & !(ow >> 1u64)
                }
            } else {
                p & !(ow >> 1u64)
            };
            let m = nlmv & spec_column_mask(c as int);
            spec_winning(b2, (occ + m) as u64) & spec_possible_of((occ + m) as u64) == 0
        }),
{
}

/// Playing an open column the pruning rejected leaves the opponent a
/// playable winning cell: either the unblocked threat in another column,
/// or the threat right above the move.
proof fn lemma_bv_pruned_loses(occ: u64, b2: u64, c: u64)
    by (bit_vector)
    requires
        c < 7,
        occ >> 49 == 0,
        col_ok(spec_col(occ, 0)),
        col_ok(spec_col(occ, 1)),
        col_ok(spec_col(occ, 2)),
        col_ok(spec_col(occ, 3)),
        col_ok(spec_col(occ, 4)),
        col_ok(spec_col(occ, 5)),
        col_ok(spec_col(occ, 6)),
        spec_possible_of(occ) & spec_column_mask(c as int) != 0,
        ({
            let p = spec_possible_of(occ);
            let ow = spec_winning(b2, occ);
            let f = p & ow;
            let nlmv = if f != 0 {
                if f & ((f - 1) as u64) != 0 {
                    0u64
                } else {
                    f & !(ow >> 1u64)
                }
            } else {
                p & !(ow >> 1u64)
            };
            nlmv != 0 && (p & spec_column_mask(c as int)) & nlmv == 0
        }),
    ensures
        ({
            let m = spec_possible_of(occ) & spec_column_mask(c as int);
            spec_possible_of((occ + m) as u64) & spec_winning(b2, occ) != 0
        }),
{
}

/// After a non-losing move, the new side to move cannot win at once.
pub proof fn lemma_nlm_child_safe(b: Board, c: int)
    requires
        b.wf(),
        0 <= c < 7,
        spec_non_losing(b) & spec_column_mask(c) != 0,
    ensures
        spec_winning(b.spec_play_col(c).player_bb, b.spec_play_col(c).occupied_bb) & b.spec_play_col(
            c,
        ).spec_possible() == 0,
{
    lemma_nlm_move(b, c);
    lemma_play_col_wf(b, c);
    lemma_bv_nlm_safe(b.occupied_bb, b.spec_opponent(), c as u64);
    assert(b.spec_play_col(c).player_bb == b.spec_opponent());
    assert(b.spec_play_col(c).occupied_bb == (b.occupied_bb + (spec_non_losing(b)
        & spec_column_mask(c))) as u64);
}

/// An open column the pruning rejected loses at once: the new side to move
/// can win on the spot.
pub proof fn lemma_pruned_child_loses(b: Board, c: int)
    requires
        b.wf(),
        0 <= c < 7,
        b.spec_is_open(c),
        spec_non_losing(b) != 0,
        b.spec_move_bit(c) & spec_non_losing(b) == 0,
    ensures
        spec_winning(b.spec_play_col(c).player_bb, b.spec_play_col(c).occupied_bb) & b.spec_play_col(
            c,
        ).spec_possible() != 0,
{
    lemma_bv_play(b.occupied_bb, c as u64, c as u64);
    lemma_bv_pruned_loses(b.occupied_bb, b.spec_opponent(), c as u64);
    lemma_threat_to_can_win(b, c);
}

/// The non-losing move set only holds landing cells.
pub proof fn lemma_nlm_subset(b: Board)
    requires
        b.wf(),
    ensures
        spec_non_losing(b) & b.spec_possible() == spec_non_losing(b),
{
    let p = b.spec_possible();
    let ow = spec_winning(b.spec_opponent(), b.occupied_bb);
    let ow1 = ow >> 1u64;
    let f = p & ow;
    let nlm = spec_non_losing(b);
    if f != 0 && f & ((f - 1) as u64) == 0 {
        lemma_bv_andnot(f, ow1, 0);
        lemma_bv_andnot(p, ow, 0);
        lemma_bv_andnot(nlm, f, p);
    } else if f == 0 {
        lemma_bv_andnot(p, ow1, 0);
    } else {
        lemma_bv_andnot(p, nlm, 0);
    }
}

/// A set bit of the non-losing move set lies in the playable area, in its
/// own column's share of the set.
pub proof fn lemma_nlm_in_board(b: Board, k: u64)
    requires
        b.wf(),
        k < 64,
        (spec_non_losing(b) >> k) & 1 == 1,
    ensures
        k < 49,
        spec_non_losing(b) & spec_column_mask((k / 7) as int) != 0,
{
    let nlm = spec_non_losing(b);
    let p = b.spec_possible();
    lemma_nlm_subset(b);
    // landing cells lie inside the playable area
    lemma_bv_xor(((b.occupied_bb + BOTTOM_ROW_MASK) as u64), FULL_BOARD_MASK);
    lemma_bv_andnot(FULL_BOARD_MASK, ((b.occupied_bb + BOTTOM_ROW_MASK) as u64), 0);
    assert(p & FULL_BOARD_MASK == p);
    lemma_bv_andnot(nlm, p, FULL_BOARD_MASK);
    crate::bitboard::lemma_bit_and(nlm, FULL_BOARD_MASK, k);
    lemma_bv_col_of_bit(k, 0, 0);
    crate::bitboard::lemma_bit_and(nlm, spec_column_mask((k / 7) as int), k);
}

/// Distinct columns have distinct landing cells.
pub proof fn lemma_move_bit_unique(b: Board, c: int, d: int)
    requires
        b.wf(),
        0 <= c < 7,
        0 <= d < 7,
        b.spec_move_bit(c) == b.spec_move_bit(d),
        b.spec_move_bit(c) != 0,
    ensures
        c == d,
{
    if c != d {
        let p = b.spec_possible();
        let m = b.spec_move_bit(c);
        lemma_bv_xor(p, spec_column_mask(c));
        lemma_bv_xor(p, spec_column_mask(d));
        lemma_bv_andnot(spec_column_mask(c), p, 0);
        lemma_bv_andnot(spec_column_mask(d), p, 0);
        assert(m & spec_column_mask(c) == m);
        assert(m & spec_column_mask(d) == m);
        lemma_bv_col_of_bit(0, c as u64, d as u64);
        lemma_bv_xor(spec_column_mask(d), spec_column_mask(c));
        lemma_bv_andnot(m, spec_column_mask(d), spec_column_mask(c));
        assert(m & (spec_column_mask(d) & spec_column_mask(c)) == m);
        lemma_bv_andnot(m, 0, 0);
    }
}

/// A column outside the non-losing set has a landing cell outside it too.
pub proof fn lemma_nlm_move_zero_share(b: Board, c: int)
    requires
        b.wf(),
        0 <= c < 7,
        spec_non_losing(b) & spec_column_mask(c) == 0,
    ensures
        b.spec_move_bit(c) & spec_non_losing(b) == 0,
{
    let p = b.spec_possible();
    let m = b.spec_move_bit(c);
    let nlm = spec_non_losing(b);
    let cmv = spec_column_mask(c);
    lemma_bv_xor(p, cmv);
    lemma_bv_andnot(cmv, p, 0);
    assert(m & cmv == m);
    lemma_bv_andnot(m, cmv, nlm);
    lemma_bv_xor(nlm, cmv);
    lemma_bv_andnot((m & nlm) as u64, 0, 0);
}

} // verus!
