use connect_four_engine::bitboard::{
    bottom_piece_mask, column_mask, mirror, top_piece_mask, BOTTOM_ROW_MASK, FULL_BOARD_MASK,
};

#[test]
fn bitboard_format_string() {
    // 0 1 1 1 0 1 1
    // 1 1 1 0 1 1 0
    // 1 1 0 0 1 0 0
    // 0 0 1 0 0 1 1
    // 0 1 1 0 1 1 1
    // 1 1 0 1 1 1 0
    let expected = "0 1 1 1 0 1 1\n1 1 1 0 1 1 0\n1 1 0 0 1 0 0\n0 0 1 0 0 1 1\n0 1 1 0 1 1 1\n1 1 0 1 1 1 0";
    let actual = connect_four_engine::bitboard::format(
        0b_0100110_0110111_0011011_0100001_0110110_0111011_0011001,
    );
    assert_eq!(expected, actual);
}

#[test]
fn masks() {
    // 0 0 0 0 0 0 0
    // 0 0 0 0 0 0 0
    // 0 0 0 0 0 0 0
    // 0 0 0 0 0 0 0
    // 0 0 0 0 0 0 0
    // 1 1 1 1 1 1 1
    assert_eq!(
        BOTTOM_ROW_MASK,
        0b_0000001_0000001_0000001_0000001_0000001_0000001_0000001
    );

    // 1 1 1 1 1 1 1 (all six playable rows)
    assert_eq!(
        FULL_BOARD_MASK,
        0b_0111111_0111111_0111111_0111111_0111111_0111111_0111111
    );

    assert_eq!(
        top_piece_mask(3),
        0b_0000000_0000000_0000000_0100000_0000000_0000000_0000000
    );

    assert_eq!(
        bottom_piece_mask(3),
        0b_0000000_0000000_0000000_0000001_0000000_0000000_0000000
    );

    assert_eq!(
        column_mask(3),
        0b_0000000_0000000_0000000_0111111_0000000_0000000_0000000
    );
}

#[test]
fn mirror_bitboard() {
    // 0 1 1 1 0 1 1        1 1 0 1 1 1 0
    // 1 1 1 0 1 1 0        0 1 1 0 1 1 1
    // 1 1 0 0 1 0 0   of   0 0 1 0 0 1 1
    // 0 0 1 0 0 1 1        1 1 0 0 1 0 0
    // 0 1 1 0 1 1 1        1 1 1 0 1 1 0
    // 1 1 0 1 1 1 0        0 1 1 1 0 1 1
    let expected = 0b_0100110_0110111_0011011_0100001_0110110_0111011_0011001;
    let actual = mirror(0b_0011001_0111011_0110110_0100001_0011011_0110111_0100110);
    assert_eq!(expected, actual);
}

#[test]
fn mirror_involution_samples() {
    // reflecting twice restores any bitboard within the playable area
    for b in [
        0u64,
        1,
        FULL_BOARD_MASK,
        0b_0011001_0111011_0110110_0100001_0011011_0110111_0100110,
        column_mask(0),
        column_mask(6) | bottom_piece_mask(2),
    ] {
        assert_eq!(mirror(mirror(b)), b);
    }
}

#[test]
fn format_empty_board() {
    let expected = "0 0 0 0 0 0 0\n0 0 0 0 0 0 0\n0 0 0 0 0 0 0\n0 0 0 0 0 0 0\n0 0 0 0 0 0 0\n0 0 0 0 0 0 0";
    assert_eq!(connect_four_engine::bitboard::format(0), expected);
}
