use bitchess::bitboard::{
    bit_count, bitboard_from_square, bits_collide, get_bit, lsb, lsb_index, make_blocker,
    not_a_file, not_ab_file, not_gh_file, not_h_file, pop_bit, set_bit, toggle_bit, NOT_A_FILE,
    NOT_H_FILE,
};
use bitchess::rand::next_magic_candidate;
use bitchess::squares::{e4, get_square, square_of_cell, NO_SQUARE};

#[test]
fn single_square_bitboards() {
    assert_eq!(bitboard_from_square(0), 1);
    assert_eq!(bitboard_from_square(63), 0x8000_0000_0000_0000);
    assert_eq!(bitboard_from_square(NO_SQUARE), 0);
    assert_eq!(bitboard_from_square(64), 0);
}

#[test]
fn bit_editing() {
    let bb = set_bit(0, 10);
    assert!(get_bit(bb, 10));
    assert!(!get_bit(bb, 11));
    assert_eq!(pop_bit(bb, 10), 0);
    assert_eq!(toggle_bit(bb, 10), 0);
    assert_eq!(toggle_bit(bb, 11), set_bit(bb, 11));
    assert!(bits_collide(bb, bb));
    assert!(!bits_collide(bb, set_bit(0, 11)));
}

#[test]
fn counting_and_lowest_bit() {
    assert_eq!(bit_count(0), 0);
    assert_eq!(bit_count(u64::MAX), 64);
    assert_eq!(bit_count(0x22140014224000), 9);
    assert_eq!(lsb(0b101000), 0b1000);
    assert_eq!(lsb_index(0b101000), 3);
    assert_eq!(lsb_index(1u64 << 63), 63);
    assert_eq!(lsb_index(0), 64);
}

#[test]
fn file_masks() {
    assert_eq!(not_a_file(), 0xFEFE_FEFE_FEFE_FEFE);
    assert_eq!(not_h_file(), 0x7F7F_7F7F_7F7F_7F7F);
    assert_eq!(not_ab_file(), 0xFCFC_FCFC_FCFC_FCFC);
    assert_eq!(not_gh_file(), 0x3F3F_3F3F_3F3F_3F3F);
    // file a squares (0, 8, ...) are exactly the ones NOT_A_FILE drops
    for rank in 0..8 {
        assert!(!get_bit(NOT_A_FILE, rank * 8));
        assert!(get_bit(NOT_A_FILE, rank * 8 + 1));
        assert!(!get_bit(NOT_H_FILE, rank * 8 + 7));
    }
}

#[test]
fn blockers_and_square_names() {
    assert_eq!(make_blocker(vec![0, 63]), 0x8000_0000_0000_0001);
    assert_eq!(make_blocker(vec![]), 0);
    assert_eq!(get_square(4, 4), e4);
    assert_eq!(square_of_cell(b'e', b'4'), e4);
    assert_eq!(square_of_cell(b'a', b'8'), 0);
    assert_eq!(square_of_cell(b'h', b'1'), 63);
    assert_eq!(square_of_cell(b'i', b'1'), NO_SQUARE);
    assert_eq!(square_of_cell(b'a', b'9'), NO_SQUARE);
}

#[test]
fn magic_candidate_stream_is_deterministic() {
    let (candidate, state) = next_magic_candidate(1804289383);
    assert_eq!(candidate, 0x020822a600a50200);
    assert_eq!(state, 1833757353);
    // the stream threads through the returned state
    let (candidate2, _) = next_magic_candidate(state);
    assert_ne!(candidate, candidate2);
}
