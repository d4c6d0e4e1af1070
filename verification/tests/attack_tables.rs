use bitchess::attacks::{
    bishop_attacks_on_the_fly, find_magic_number, mask_bishop_attacks, mask_rook_attacks,
    rook_attacks_on_the_fly, set_occupancy, Attacks,
};
use bitchess::bitboard::{bit_count, bitboard_from_square};
use bitchess::board::Side;
use bitchess::squares::{a1, b1, d4, e4};

#[test]
fn leaper_attack_patterns() {
    let attacks = Attacks::new();
    assert_eq!(attacks.get_knight_attacks(b1), 0x8050000000000);
    assert_eq!(attacks.get_knight_attacks(d4), 0x14220022140000);
    assert_eq!(attacks.get_king_attacks(a1), 0x203000000000000);
    assert_eq!(attacks.get_pawn_attacks(e4, Side::White), 0x28000000);
    assert_eq!(attacks.get_pawn_attacks(e4, Side::Black), 0x280000000000);
    // pawns never wrap around the board edge
    for rank in 0..8 {
        let a_file_square = rank * 8;
        assert_eq!(attacks.get_pawn_attacks(a_file_square, Side::White) & 0x8080808080808080, 0);
    }
}

#[test]
fn slider_masks_and_relevant_bits() {
    assert_eq!(mask_bishop_attacks(d4), 0x22140014224000);
    assert_eq!(bit_count(mask_bishop_attacks(d4)), 9);
    assert_eq!(mask_rook_attacks(d4), 0x8087608080800);
    assert_eq!(bit_count(mask_rook_attacks(d4)), 10);
    assert_eq!(bit_count(mask_rook_attacks(0)), 12);
}

#[test]
fn on_the_fly_attacks_stop_at_blockers() {
    let e5 = 28;
    assert_eq!(bishop_attacks_on_the_fly(d4, bitboard_from_square(e5)), 0x4122140014020100);
    let d6 = 19;
    let f4 = 37;
    let blockers = bitboard_from_square(d6) | bitboard_from_square(f4);
    assert_eq!(rook_attacks_on_the_fly(d4, blockers), 0x808083708080000);
}

#[test]
fn magic_lookup_matches_ray_walk() {
    let attacks = Attacks::new();
    let blockers = bitboard_from_square(28) | bitboard_from_square(19) | bitboard_from_square(37);
    for square in [0, 7, 27, 35, 56, 63] {
        let bmask = mask_bishop_attacks(square);
        let rmask = mask_rook_attacks(square);
        assert_eq!(
            attacks.get_bishop_attacks(square, blockers),
            bishop_attacks_on_the_fly(square, blockers & bmask)
        );
        assert_eq!(
            attacks.get_rook_attacks(square, blockers),
            rook_attacks_on_the_fly(square, blockers & rmask)
        );
        assert_eq!(
            attacks.get_queen_attacks(square, blockers),
            attacks.get_bishop_attacks(square, blockers) | attacks.get_rook_attacks(square, blockers)
        );
    }
}

#[test]
fn subset_enumeration() {
    let mask = mask_bishop_attacks(0);
    let bits = bit_count(mask) as usize;
    assert_eq!(set_occupancy(0, bits, mask), 0);
    assert_eq!(set_occupancy((1 << bits) - 1, bits, mask), mask);
    // every enumerated subset stays inside the mask
    for index in 0..(1usize << bits) {
        let subset = set_occupancy(index, bits, mask);
        assert_eq!(subset & mask, subset);
    }
}

#[test]
fn found_magic_merges_no_distinct_attack_sets() {
    // search a magic for the a8 bishop and check the index function on
    // every blocker subset: colliding subsets must share their attack set
    let square = 0;
    let mask = mask_bishop_attacks(square);
    let bits = bit_count(mask) as usize;
    let found = find_magic_number(1804289383, square, bits, true);
    let (magic, _) = found.expect("the candidate stream yields a magic for a8");
    let size = 1usize << bits;
    let mut table: Vec<u64> = vec![0; size];
    let mut seen: Vec<bool> = vec![false; size];
    for index in 0..size {
        let subset = set_occupancy(index, bits, mask);
        let attack = bishop_attacks_on_the_fly(square, subset);
        let hashed = (subset.wrapping_mul(magic) >> (64 - bits)) as usize;
        if seen[hashed] {
            assert_eq!(table[hashed], attack);
        } else {
            table[hashed] = attack;
            seen[hashed] = true;
        }
    }
}
