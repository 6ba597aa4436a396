//! The bitboard type, utility masks, and formatting functions.
//!
//! In a standard 7x6 board, a bitboard represents the following configuration:
//! ```text
//! .  .  .  .  .  .  .
//! 5 12 19 26 33 40 47
//! 4 11 18 25 32 39 46
//! 3 10 17 24 31 38 45
//! 2  9 16 23 30 37 44
//! 1  8 15 22 29 36 43
//! 0  7 14 21 28 35 42
//! ```
//! Bit 0 is the right-most bit. There is an extra sentinel row of 0s at the
//! top of the bitboard that denotes the separation of columns.

use vstd::prelude::*;

verus! {

use vstd::string::StringExecFns;

/// A mask representing the tiles in the first column.
pub const FIRST_COLUMN_MASK: u64 = 0x3f;

/// A mask representing the bottom row of tiles.
pub const BOTTOM_ROW_MASK: u64 = 0x40810204081;

/// A mask representing all the tiles in a board.
pub const FULL_BOARD_MASK: u64 = BOTTOM_ROW_MASK * FIRST_COLUMN_MASK;

/// The bit index of the bottom tile of column `c`.
pub open spec fn spec_bottom_index(c: int) -> int {
    7 * c
}

/// The single bit at the bottom tile of column `c`.
pub open spec fn spec_bottom_mask(c: int) -> u64 {
    1u64 << ((7 * c) as u64)
}

/// The single bit at the top playable tile of column `c`.
pub open spec fn spec_top_mask(c: int) -> u64 {
    1u64 << ((7 * c + 5) as u64)
}

/// All six playable bits of column `c`.
pub open spec fn spec_column_mask(c: int) -> u64 {
    0x3fu64 << ((7 * c) as u64)
}

/// The seven bits of column `c`, sentinel included, moved down to the low end.
pub open spec fn spec_col(b: u64, c: int) -> u64 {
    (b >> ((7 * c) as u64)) & 0x7f
}

/// Returns the index of the bottom tile of a column.
pub fn bottom_index(col: u8) -> (r: u8)
    requires
        col < 7,
    ensures
        r == spec_bottom_index(col as int),
{
    col * 7
}

/// Returns a mask representing the top piece in the given 0-indexed column.
pub fn top_piece_mask(col: u8) -> (r: u64)
    requires
        col < 7,
    ensures
        r == spec_top_mask(col as int),
{
    1u64 << ((bottom_index(col) + 5) as u64)
}

/// Returns a mask representing the bottom piece in the given 0-indexed column.
pub fn bottom_piece_mask(col: u8) -> (r: u64)
    requires
        col < 7,
    ensures
        r == spec_bottom_mask(col as int),
{
    1u64 << (bottom_index(col) as u64)
}

/// Returns a mask representing the tiles in the given 0-indexed column.
pub fn column_mask(col: u8) -> (r: u64)
    requires
        col < 7,
    ensures
        r == spec_column_mask(col as int),
{
    FIRST_COLUMN_MASK << (bottom_index(col) as u64)
}

/// A bitboard reflected horizontally: column `c` moves to column `6 - c`.
/// Bits outside the playable area are dropped.
pub open spec fn spec_mirror(b: u64) -> u64 {
    ((b & spec_column_mask(0)) << 42) | ((b & spec_column_mask(1)) << 28) | ((b
        & spec_column_mask(2)) << 14) | (b & spec_column_mask(3)) | ((b & spec_column_mask(4))
        >> 14) | ((b & spec_column_mask(5)) >> 28) | ((b & spec_column_mask(6)) >> 42)
}

/// Returns a bitboard reflected horizontally across its center.
pub fn mirror(bitboard: u64) -> (r: u64)
    ensures
        r == spec_mirror(bitboard),
{
    let c0: u64 = bitboard & column_mask(0);
    let c1: u64 = bitboard & column_mask(1);
    let c2: u64 = bitboard & column_mask(2);
    let c3: u64 = bitboard & column_mask(3);
    let c4: u64 = bitboard & column_mask(4);
    let c5: u64 = bitboard & column_mask(5);
    let c6: u64 = bitboard & column_mask(6);
    (c0 << 42) | (c1 << 28) | (c2 << 14) | c3 | (c4 >> 14) | (c5 >> 28) | (c6 >> 42)
}

/// Reflecting a bitboard twice restores it, for any bitboard within the
/// playable area.
pub proof fn lemma_mirror_involution(b: u64)
    by (bit_vector)
    requires
        b & 0xfdfbf7efdfbf == b,
    ensures
        spec_mirror(spec_mirror(b)) == b,
{
}

/// Structure of a mirrored board: the playable area is preserved, the
/// sentinel row stays clear, and column `c` of the reflection carries
/// exactly what column `6 - c` of the original carried.
pub proof fn lemma_mirror_cols(b: u64, c: u64)
    by (bit_vector)
    requires
        b & 0xfdfbf7efdfbf == b,
        c < 7,
    ensures
        spec_mirror(b) & 0xfdfbf7efdfbf == spec_mirror(b),
        spec_mirror(b) >> 49u64 == 0,
        spec_col(spec_mirror(b), c as int) == spec_col(b, 6 - c),
{
}

/// The two ways of testing a single bit agree.
pub proof fn lemma_bit_test(x: u64, k: u64)
    by (bit_vector)
    requires
        k < 64,
    ensures
        (x & (1u64 << k) != 0) <==> ((x >> k) & 1 == 1),
        (x & (1u64 << k) != 0) ==> x & (1u64 << k) == (1u64 << k),
        (1u64 << k) != 0,
{
}

/// A bit of an intersection is a bit of both parts.
pub proof fn lemma_bit_and(x: u64, y: u64, k: u64)
    by (bit_vector)
    requires
        k < 64,
    ensures
        (((x & y) >> k) & 1 == 1) <==> ((x >> k) & 1 == 1 && (y >> k) & 1 == 1),
        ((x >> k) & 1 == 1) ==> x != 0,
        (((x & y) >> k) & 1 == 1) ==> x & y != 0,
{
}

/// The character standing for one tile of a rendered bitboard.
pub open spec fn cell_char(b: u64, col: int, row: int) -> char {
    if (b >> ((7 * col + row) as u64)) & 1 == 1 {
        '1'
    } else {
        '0'
    }
}

/// The rendering of row `row`, first `col` columns, separators included.
pub open spec fn spec_format_row(b: u64, row: int, col: int) -> Seq<char>
    decreases col,
{
    if col <= 0 {
        Seq::empty()
    } else {
        spec_format_row(b, row, col - 1) + seq![cell_char(b, col - 1, row)] + (if col - 1 != 6 {
            seq![' ']
        } else {
            Seq::empty()
        })
    }
}

/// The rendering of rows 5 down to `row`, each but the bottom one followed
/// by a newline.
pub open spec fn spec_format_rows(b: u64, row: int) -> Seq<char>
    decreases 6 - row,
{
    if row >= 6 || row < 0 {
        Seq::empty()
    } else {
        spec_format_rows(b, row + 1) + spec_format_row(b, row, 7) + (if row != 0 {
            seq!['\n']
        } else {
            Seq::empty()
        })
    }
}

/// The full row-major rendering of a bitboard, top row first, sentinel row
/// omitted.
pub open spec fn spec_format(b: u64) -> Seq<char> {
    spec_format_rows(b, 0)
}

/// Formats a bitboard into a [`String`].
///
/// **Note:** The top sentinel row, which does not contain any pieces, is omitted.
pub fn format(bitboard: u64) -> (r: String)
    ensures
        r@ == spec_format(bitboard),
{
    let mut text: String = String::new();
    let mut row: u8 = 6;
    while row > 0
        invariant
            row <= 6,
            text@ == spec_format_rows(bitboard, row as int),
        decreases row,
    {
        row = row - 1;
        let mut col: u8 = 0;
        while col < 7
            invariant
                col <= 7,
                row < 6,
                text@ == spec_format_rows(bitboard, row as int + 1) + spec_format_row(
                    bitboard,
                    row as int,
                    col as int,
                ),
            decreases 7 - col,
        {
            let index: u8 = col * 7 + row;
            proof {
                lemma_bit_test(bitboard, index as u64);
            }
            if (bitboard & (1u64 << (index as u64))) != 0 {
                text.append("1");
                proof {
                    reveal_strlit("1");
                }
            } else {
                text.append("0");
                proof {
                    reveal_strlit("0");
                }
            }
            if col != 6 {
                text.append(" ");
                proof {
                    reveal_strlit(" ");
                }
            }
            col = col + 1;
        }
        if row != 0 {
            text.append("\n");
            proof {
                reveal_strlit("\n");
            }
        }
    }
    text
}

} // verus!
