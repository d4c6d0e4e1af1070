//! Attack-set computation and the precomputed attack tables.
//!
//! Leaper attacks (pawn, knight, king) are pure bit patterns per square.
//! Slider attacks (bishop, rook) walk rays that stop at the first blocker;
//! the tables hash the relevant blocker subsets of each square through a
//! magic multiplier onto a dense, collision-checked index.

use vstd::prelude::*;
use crate::bitboard::NOT_A_FILE;
use crate::bitboard::NOT_H_FILE;
use crate::bitboard::NOT_AB_FILE;
use crate::bitboard::NOT_GH_FILE;
use crate::bitboard::square_bb;
use crate::bitboard::has_square;
use crate::bitboard::bitboard_from_square;
use crate::bitboard::get_bit;
use crate::bitboard::set_bit;
use crate::bitboard::pop_bit;
use crate::bitboard::lsb_index;
use crate::bitboard::bit_count;
use crate::bitboard::popcount;
use crate::bitboard::lsb_bb;
use crate::bitboard::drop_lsb;
use crate::bitboard::lemma_popcount_drop_lsb;
use crate::bitboard::lemma_lsb_is_trailing_zeros;
use crate::bitboard::lemma_or_basics;
use crate::bitboard::lemma_popcount_or_le;
use crate::bitboard::lemma_popcount_single;
use crate::board::Side;

verus! {

/// How many steps a ray can still take towards the board edge.
pub open spec fn ray_len(rank: int, file: int, dr: int, df: int) -> int {
    if dr > 0 {
        7 - rank
    } else if dr < 0 {
        rank
    } else if df > 0 {
        7 - file
    } else {
        file
    }
}

/// The squares a slider on (`rank`, `file`) attacks along direction
/// (`dr`, `df`) given `blockers`: every square up to and including the first
/// blocker, or up to the board edge.
pub open spec fn ray_attacks(rank: int, file: int, dr: int, df: int, blockers: u64) -> u64
    decreases ray_len(rank, file, dr, df),
    when -1 <= dr <= 1 && -1 <= df <= 1 && !(dr == 0 && df == 0) && 0 <= rank < 8 && 0 <= file < 8
{
    let nr = rank + dr;
    let nf = file + df;
    if !(0 <= nr < 8 && 0 <= nf < 8) {
        0u64
    } else if has_square(blockers, (nr * 8 + nf) as i32) {
        square_bb((nr * 8 + nf) as i32)
    } else {
        square_bb((nr * 8 + nf) as i32) | ray_attacks(nr, nf, dr, df, blockers)
    }
}

/// The relevant-blocker squares of a ray: the squares it attacks on an empty
/// board, except the edge square it ends on.
pub open spec fn ray_mask(rank: int, file: int, dr: int, df: int) -> u64
    decreases ray_len(rank, file, dr, df),
    when -1 <= dr <= 1 && -1 <= df <= 1 && !(dr == 0 && df == 0) && 0 <= rank < 8 && 0 <= file < 8
{
    let nr = rank + dr;
    let nf = file + df;
    if !(0 <= nr < 8 && 0 <= nf < 8) {
        0u64
    } else if !(0 <= nr + dr < 8 && 0 <= nf + df < 8) {
        0u64
    } else {
        square_bb((nr * 8 + nf) as i32) | ray_mask(nr, nf, dr, df)
    }
}

/// The full bishop attack set from `square` given `blockers`.
pub open spec fn bishop_rays(square: i32, blockers: u64) -> u64 {
    let r = square as int / 8;
    let f = square as int % 8;
    ray_attacks(r, f, -1, -1, blockers) | ray_attacks(r, f, -1, 1, blockers) | ray_attacks(
        r,
        f,
        1,
        -1,
        blockers,
    ) | ray_attacks(r, f, 1, 1, blockers)
}

/// The full rook attack set from `square` given `blockers`.
pub open spec fn rook_rays(square: i32, blockers: u64) -> u64 {
    let r = square as int / 8;
    let f = square as int % 8;
    ray_attacks(r, f, -1, 0, blockers) | ray_attacks(r, f, 0, -1, blockers) | ray_attacks(
        r,
        f,
        1,
        0,
        blockers,
    ) | ray_attacks(r, f, 0, 1, blockers)
}

/// The relevant-blocker mask of a bishop on `square`.
pub open spec fn bishop_mask_bb(square: i32) -> u64 {
    let r = square as int / 8;
    let f = square as int % 8;
    ray_mask(r, f, -1, -1) | ray_mask(r, f, -1, 1) | ray_mask(r, f, 1, -1) | ray_mask(r, f, 1, 1)
}

/// The relevant-blocker mask of a rook on `square`.
pub open spec fn rook_mask_bb(square: i32) -> u64 {
    let r = square as int / 8;
    let f = square as int % 8;
    ray_mask(r, f, -1, 0) | ray_mask(r, f, 0, -1) | ray_mask(r, f, 1, 0) | ray_mask(r, f, 0, 1)
}

/// The relevant-blocker mask of either slider kind.
pub open spec fn slider_mask(is_bishop: bool, square: i32) -> u64 {
    if is_bishop {
        bishop_mask_bb(square)
    } else {
        rook_mask_bb(square)
    }
}

/// The attack set of either slider kind.
pub open spec fn slider_rays(is_bishop: bool, square: i32, blockers: u64) -> u64 {
    if is_bishop {
        bishop_rays(square, blockers)
    } else {
        rook_rays(square, blockers)
    }
}

/// The squares a pawn of `side` on `square` attacks: the two forward
/// diagonals, clipped at the board's files. White moves towards rank 8
/// (lower indices), Black towards rank 1. `Both` attacks nothing.
pub open spec fn pawn_attacks_bb(side: Side, square: i32) -> u64 {
    let bb = square_bb(square);
    match side {
        Side::White => (if bb & NOT_A_FILE != 0 {
            square_bb((square - 9) as i32)
        } else {
            0u64
        }) | (if bb & NOT_H_FILE != 0 {
            square_bb((square - 7) as i32)
        } else {
            0u64
        }),
        Side::Black => (if bb & NOT_A_FILE != 0 {
            square_bb((square + 7) as i32)
        } else {
            0u64
        }) | (if bb & NOT_H_FILE != 0 {
            square_bb((square + 9) as i32)
        } else {
            0u64
        }),
        Side::Both => 0u64,
    }
}

/// The eight knight destinations from `square`, clipped at the files.
pub open spec fn knight_attacks_bb(square: i32) -> u64 {
    let bb = square_bb(square);
    (if bb & NOT_A_FILE != 0 {
        square_bb((square - 17) as i32) | square_bb((square + 15) as i32)
    } else {
        0u64
    }) | (if bb & NOT_AB_FILE != 0 {
        square_bb((square - 10) as i32) | square_bb((square + 6) as i32)
    } else {
        0u64
    }) | (if bb & NOT_GH_FILE != 0 {
        square_bb((square - 6) as i32) | square_bb((square + 10) as i32)
    } else {
        0u64
    }) | (if bb & NOT_H_FILE != 0 {
        square_bb((square - 15) as i32) | square_bb((square + 17) as i32)
    } else {
        0u64
    })
}

/// The eight king steps from `square`, clipped at the files.
pub open spec fn king_attacks_bb(square: i32) -> u64 {
    let bb = square_bb(square);
    (square_bb((square - 8) as i32) | square_bb((square + 8) as i32)) | (if bb & NOT_A_FILE != 0 {
        square_bb((square - 9) as i32) | square_bb((square - 1) as i32) | square_bb((square + 7) as i32)
    } else {
        0u64
    }) | (if bb & NOT_H_FILE != 0 {
        square_bb((square + 9) as i32) | square_bb((square + 1) as i32) | square_bb((square - 7) as i32)
    } else {
        0u64
    })
}

/// A pawn attacks one rank ahead of its own — White towards rank 8 (lower
/// indices), Black towards rank 1 — and one file to either side.
pub proof fn lemma_pawn_attack_rank(side: Side, s: i32, d: i32)
    requires
        0 <= s < 64,
        0 <= d < 64,
        has_square(pawn_attacks_bb(side, s), d),
    ensures
        side == Side::White ==> d / 8 == s / 8 - 1,
        side == Side::Black ==> d / 8 == s / 8 + 1,
        side == Side::White || side == Side::Black ==> d % 8 != s % 8,
{
    if side == Side::White {
        assert(pawn_attacks_bb(Side::White, s) & square_bb(d) != 0 ==> d / 8 == s / 8 - 1 && d % 8
            != s % 8) by (bit_vector)
            requires 0 <= s < 64 && 0 <= d < 64;
    }
    if side == Side::Black {
        assert(pawn_attacks_bb(Side::Black, s) & square_bb(d) != 0 ==> d / 8 == s / 8 + 1 && d % 8
            != s % 8) by (bit_vector)
            requires 0 <= s < 64 && 0 <= d < 64;
    }
}

/// The attack set of a pawn of `side` on `square`.
fn mask_pawn_attacks(square: i32, side: Side) -> (r: u64)
    requires
        0 <= square < 64,
    ensures
        r == pawn_attacks_bb(side, square),
{
    let bb = bitboard_from_square(square);
    match side {
        Side::White => {
            let a = if bb & NOT_A_FILE != 0 {
                bitboard_from_square(square - 9)
            } else {
                0u64
            };
            let b = if bb & NOT_H_FILE != 0 {
                bitboard_from_square(square - 7)
            } else {
                0u64
            };
            a | b
        },
        Side::Black => {
            let a = if bb & NOT_A_FILE != 0 {
                bitboard_from_square(square + 7)
            } else {
                0u64
            };
            let b = if bb & NOT_H_FILE != 0 {
                bitboard_from_square(square + 9)
            } else {
                0u64
            };
            a | b
        },
        Side::Both => 0u64,
    }
}

/// The attack set of a knight on `square`.
fn mask_knight_attacks(square: i32) -> (r: u64)
    requires
        0 <= square < 64,
    ensures
        r == knight_attacks_bb(square),
{
    let bb = bitboard_from_square(square);
    let a = if bb & NOT_A_FILE != 0 {
        bitboard_from_square(square - 17) | bitboard_from_square(square + 15)
    } else {
        0u64
    };
    let b = if bb & NOT_AB_FILE != 0 {
        bitboard_from_square(square - 10) | bitboard_from_square(square + 6)
    } else {
        0u64
    };
    let c = if bb & NOT_GH_FILE != 0 {
        bitboard_from_square(square - 6) | bitboard_from_square(square + 10)
    } else {
        0u64
    };
    let d = if bb & NOT_H_FILE != 0 {
        bitboard_from_square(square - 15) | bitboard_from_square(square + 17)
    } else {
        0u64
    };
    a | b | c | d
}

/// The attack set of a king on `square`.
fn mask_king_attacks(square: i32) -> (r: u64)
    requires
        0 <= square < 64,
    ensures
        r == king_attacks_bb(square),
{
    let bb = bitboard_from_square(square);
    let a = bitboard_from_square(square - 8) | bitboard_from_square(square + 8);
    let b = if bb & NOT_A_FILE != 0 {
        bitboard_from_square(square - 9) | bitboard_from_square(square - 1) | bitboard_from_square(
            square + 7,
        )
    } else {
        0u64
    };
    let c = if bb & NOT_H_FILE != 0 {
        bitboard_from_square(square + 9) | bitboard_from_square(square + 1) | bitboard_from_square(
            square - 7,
        )
    } else {
        0u64
    };
    a | b | c
}

/// Walks one ray and accumulates `ray_attacks`.
fn ray_attacks_walk(rank: i32, file: i32, dr: i32, df: i32, blockers: u64) -> (r: u64)
    requires
        0 <= rank < 8,
        0 <= file < 8,
        -1 <= dr <= 1,
        -1 <= df <= 1,
        !(dr == 0 && df == 0),
    ensures
        r == ray_attacks(rank as int, file as int, dr as int, df as int, blockers),
    decreases ray_len(rank as int, file as int, dr as int, df as int),
{
    let nr = rank + dr;
    let nf = file + df;
    if !(0 <= nr && nr < 8 && 0 <= nf && nf < 8) {
        0u64
    } else {
        let next = nr * 8 + nf;
        let bb = bitboard_from_square(next);
        if get_bit(blockers, next) {
            bb
        } else {
            bb | ray_attacks_walk(nr, nf, dr, df, blockers)
        }
    }
}

/// Walks one ray and accumulates `ray_mask`.
fn ray_mask_walk(rank: i32, file: i32, dr: i32, df: i32) -> (r: u64)
    requires
        0 <= rank < 8,
        0 <= file < 8,
        -1 <= dr <= 1,
        -1 <= df <= 1,
        !(dr == 0 && df == 0),
    ensures
        r == ray_mask(rank as int, file as int, dr as int, df as int),
    decreases ray_len(rank as int, file as int, dr as int, df as int),
{
    let nr = rank + dr;
    let nf = file + df;
    if !(0 <= nr && nr < 8 && 0 <= nf && nf < 8) {
        0u64
    } else if !(0 <= nr + dr && nr + dr < 8 && 0 <= nf + df && nf + df < 8) {
        0u64
    } else {
        let next = nr * 8 + nf;
        bitboard_from_square(next) | ray_mask_walk(nr, nf, dr, df)
    }
}

/// The relevant-blocker mask of a bishop on `square`: its diagonals, stopped
/// one square before the board edge.
pub fn mask_bishop_attacks(square: i32) -> (r: u64)
    requires
        0 <= square < 64,
    ensures
        r == bishop_mask_bb(square),
{
    let rank = square / 8;
    let file = square % 8;
    ray_mask_walk(rank, file, -1, -1) | ray_mask_walk(rank, file, -1, 1) | ray_mask_walk(
        rank,
        file,
        1,
        -1,
    ) | ray_mask_walk(rank, file, 1, 1)
}

/// The relevant-blocker mask of a rook on `square`: its rank and file,
/// stopped one square before the board edge.
pub fn mask_rook_attacks(square: i32) -> (r: u64)
    requires
        0 <= square < 64,
    ensures
        r == rook_mask_bb(square),
{
    let rank = square / 8;
    let file = square % 8;
    ray_mask_walk(rank, file, -1, 0) | ray_mask_walk(rank, file, 0, -1) | ray_mask_walk(
        rank,
        file,
        1,
        0,
    ) | ray_mask_walk(rank, file, 0, 1)
}

/// The bishop attack set from `square` computed by walking the four
/// diagonal rays against `blocker`.
pub fn bishop_attacks_on_the_fly(square: i32, blocker: u64) -> (r: u64)
    requires
        0 <= square < 64,
    ensures
        r == bishop_rays(square, blocker),
{
    let rank = square / 8;
    let file = square % 8;
    ray_attacks_walk(rank, file, -1, -1, blocker) | ray_attacks_walk(rank, file, -1, 1, blocker)
        | ray_attacks_walk(rank, file, 1, -1, blocker) | ray_attacks_walk(rank, file, 1, 1, blocker)
}

/// The rook attack set from `square` computed by walking the four
/// orthogonal rays against `blocker`.
pub fn rook_attacks_on_the_fly(square: i32, blocker: u64) -> (r: u64)
    requires
        0 <= square < 64,
    ensures
        r == rook_rays(square, blocker),
{
    let rank = square / 8;
    let file = square % 8;
    ray_attacks_walk(rank, file, -1, 0, blocker) | ray_attacks_walk(rank, file, 0, -1, blocker)
        | ray_attacks_walk(rank, file, 1, 0, blocker) | ray_attacks_walk(rank, file, 0, 1, blocker)
}

} // verus!

verus! {

/// A ray's relevant-blocker squares number at most its remaining steps.
proof fn lemma_ray_mask_popcount(rank: int, file: int, dr: int, df: int)
    requires
        -1 <= dr <= 1,
        -1 <= df <= 1,
        !(dr == 0 && df == 0),
        0 <= rank < 8,
        0 <= file < 8,
    ensures
        popcount(ray_mask(rank, file, dr, df)) <= ray_len(rank, file, dr, df),
    decreases ray_len(rank, file, dr, df),
{
    let nr = rank + dr;
    let nf = file + df;
    if !(0 <= nr < 8 && 0 <= nf < 8) {
    } else if !(0 <= nr + dr < 8 && 0 <= nf + df < 8) {
    } else {
        lemma_ray_mask_popcount(nr, nf, dr, df);
        let sq = (nr * 8 + nf) as i32;
        assert(0 <= sq < 64);
        lemma_popcount_single(sq as u64);
        lemma_popcount_or_le(square_bb(sq), ray_mask(nr, nf, dr, df));
    }
}

/// A slider's relevant-blocker mask holds well under 32 squares, so the
/// count of its subsets fits comfortably in a `usize`.
pub proof fn lemma_slider_mask_bits(is_bishop: bool, square: i32)
    requires
        0 <= square < 64,
    ensures
        popcount(slider_mask(is_bishop, square)) < 32,
{
    let r = square as int / 8;
    let f = square as int % 8;
    if is_bishop {
        lemma_ray_mask_popcount(r, f, -1, -1);
        lemma_ray_mask_popcount(r, f, -1, 1);
        lemma_ray_mask_popcount(r, f, 1, -1);
        lemma_ray_mask_popcount(r, f, 1, 1);
        lemma_popcount_or_le(ray_mask(r, f, -1, -1), ray_mask(r, f, -1, 1));
        lemma_popcount_or_le(ray_mask(r, f, -1, -1) | ray_mask(r, f, -1, 1), ray_mask(r, f, 1, -1));
        lemma_popcount_or_le(
            ray_mask(r, f, -1, -1) | ray_mask(r, f, -1, 1) | ray_mask(r, f, 1, -1),
            ray_mask(r, f, 1, 1),
        );
    } else {
        lemma_ray_mask_popcount(r, f, -1, 0);
        lemma_ray_mask_popcount(r, f, 0, -1);
        lemma_ray_mask_popcount(r, f, 1, 0);
        lemma_ray_mask_popcount(r, f, 0, 1);
        lemma_popcount_or_le(ray_mask(r, f, -1, 0), ray_mask(r, f, 0, -1));
        lemma_popcount_or_le(ray_mask(r, f, -1, 0) | ray_mask(r, f, 0, -1), ray_mask(r, f, 1, 0));
        lemma_popcount_or_le(
            ray_mask(r, f, -1, 0) | ray_mask(r, f, 0, -1) | ray_mask(r, f, 1, 0),
            ray_mask(r, f, 0, 1),
        );
    }
}

#[via_fn]
proof fn place_bits_decreases(index: nat, mask: u64) {
    if mask != 0 {
        lemma_popcount_drop_lsb(mask);
    }
}

/// The blocker subset of `mask` an enumeration index selects: walking the
/// mask's squares lowest-first, bit `i` of `index` decides whether the
/// `i`-th square joins the subset.
pub open spec fn place_bits(index: nat, mask: u64) -> u64
    decreases mask,
    via place_bits_decreases
{
    if mask == 0 {
        0u64
    } else {
        (if index % 2 == 1 {
            lsb_bb(mask)
        } else {
            0u64
        }) | place_bits(index / 2, drop_lsb(mask))
    }
}

#[via_fn]
proof fn subset_index_decreases(s: u64, mask: u64) {
    if mask != 0 {
        lemma_popcount_drop_lsb(mask);
    }
}

/// The enumeration index whose `place_bits` subset is `s & mask`.
pub open spec fn subset_index(s: u64, mask: u64) -> nat
    decreases mask,
    via subset_index_decreases
{
    if mask == 0 {
        0
    } else {
        (if s & lsb_bb(mask) != 0 {
            1nat
        } else {
            0nat
        }) + 2 * subset_index(s, drop_lsb(mask))
    }
}

/// Every subset of `mask` is reached by the enumeration: `subset_index`
/// names an index below the subset count whose `place_bits` value is the
/// subset itself.
pub proof fn lemma_place_subset(s: u64, mask: u64)
    ensures
        place_bits(subset_index(s, mask), mask) == s & mask,
        subset_index(s, mask) < vstd::arithmetic::power2::pow2(popcount(mask)),
    decreases mask,
{
    if mask == 0 {
        assert(s & 0u64 == 0u64) by (bit_vector);
        vstd::arithmetic::power2::lemma2_to64();
    } else {
        lemma_popcount_drop_lsb(mask);
        lemma_place_subset(s, drop_lsb(mask));
        vstd::arithmetic::power2::lemma_pow2_unfold(popcount(mask));
        assert(((if s & (mask & 0u64.wrapping_sub(mask)) != 0 {
            mask & 0u64.wrapping_sub(mask)
        } else {
            0u64
        }) | (s & (mask & mask.wrapping_sub(1)))) == s & mask) by (bit_vector)
            requires mask != 0;
    }
}

/// Every enumerated blocker subset lies inside its mask.
pub proof fn lemma_place_bits_in_mask(index: nat, mask: u64)
    ensures
        place_bits(index, mask) & mask == place_bits(index, mask),
    decreases mask,
{
    if mask == 0 {
        crate::bitboard::lemma_or_basics();
        assert(0u64 & mask == 0);
    } else {
        lemma_popcount_drop_lsb(mask);
        lemma_place_bits_in_mask(index / 2, drop_lsb(mask));
        let sub = place_bits(index / 2, drop_lsb(mask));
        assert(((mask & 0u64.wrapping_sub(mask)) | sub) & mask == ((mask & 0u64.wrapping_sub(mask))
            | sub) && (0u64 | sub) & mask == (0u64 | sub)) by (bit_vector)
            requires sub & (mask & mask.wrapping_sub(1)) == sub;
    }
}

/// Builds the `index`-th blocker subset of `attack_mask`, whose set-bit
/// count the caller passes in `bits_in_mask`.
pub fn set_occupancy(index: usize, bits_in_mask: usize, attack_mask: u64) -> (r: u64)
    requires
        bits_in_mask == popcount(attack_mask),
    ensures
        r == place_bits(index as nat, attack_mask),
{
    let mut occupancy: u64 = 0;
    let mut mask = attack_mask;
    let mut idx = index;
    let mut count: usize = 0;
    proof {
        lemma_or_basics();
    }
    while count < bits_in_mask
        invariant
            count <= bits_in_mask,
            bits_in_mask == popcount(attack_mask),
            popcount(mask) == bits_in_mask - count,
            place_bits(index as nat, attack_mask) == occupancy | place_bits(idx as nat, mask),
        decreases bits_in_mask - count,
    {
        proof {
            lemma_popcount_drop_lsb(mask);
            lemma_lsb_is_trailing_zeros(mask);
            lemma_or_basics();
        }
        let ghost old_occupancy = occupancy;
        let ghost old_idx = idx as nat;
        let ghost old_mask = mask;
        let square = lsb_index(mask) as i32;
        let next_mask = pop_bit(mask, square);
        if idx % 2 == 1 {
            occupancy = set_bit(occupancy, square);
        }
        idx = idx / 2;
        mask = next_mask;
        count = count + 1;
        proof {
            assert(place_bits(old_idx, old_mask) == (if old_idx % 2 == 1 {
                lsb_bb(old_mask)
            } else {
                0u64
            }) | place_bits(old_idx / 2, drop_lsb(old_mask)));
        }
    }
    proof {
        if mask != 0 {
            lemma_popcount_drop_lsb(mask);
        }
        lemma_or_basics();
    }
    occupancy
}

/// The dense index the magic multiplier assigns to a blocker subset:
/// the top `bits` bits of the truncating product.
pub open spec fn magic_index(occupancy: u64, magic: u64, bits: nat) -> u64 {
    if bits == 0 {
        0u64
    } else {
        occupancy.wrapping_mul(magic) >> ((64 - bits) as u64)
    }
}

/// The magic index stays below the subset count of a mask with `bits`
/// relevant squares.
pub proof fn lemma_magic_index_bound(occupancy: u64, magic: u64, bits: nat)
    requires
        bits < 64,
    ensures
        magic_index(occupancy, magic, bits) < vstd::arithmetic::power2::pow2(bits),
{
    vstd::arithmetic::power2::lemma2_to64();
    if bits != 0 {
        let x = occupancy.wrapping_mul(magic);
        let sh = (64 - bits) as u64;
        let b = bits as u64;
        assert(x >> sh < 1u64 << b) by (bit_vector)
            requires sh + b == 64 && 1 <= b < 64;
        vstd::bits::lemma_u64_pow2_no_overflow(bits);
        vstd::bits::lemma_u64_shl_is_mul(1u64, b);
    }
}

fn magic_index_exec(occupancy: u64, magic: u64, bits: usize) -> (r: u64)
    requires
        bits < 32,
    ensures
        r == magic_index(occupancy, magic, bits as nat),
        r < 0x1_0000_0000u64,
{
    proof {
        lemma_magic_index_bound(occupancy, magic, bits as nat);
        vstd::arithmetic::power2::lemma2_to64();
        vstd::arithmetic::power2::lemma_pow2_strictly_increases(bits as nat, 32);
    }
    if bits == 0 {
        0u64
    } else {
        occupancy.wrapping_mul(magic) >> ((64 - bits) as u64)
    }
}

} // verus!

verus! {

/// A well-hashed table row for one square: every blocker subset of the
/// square's mask lands inside the row, on an entry holding its attack set.
pub open spec fn row_good(row: Seq<u64>, magic: u64, is_bishop: bool, square: i32) -> bool {
    forall|s: u64|
        s & slider_mask(is_bishop, square) == s ==> #[trigger] magic_index(
            s,
            magic,
            popcount(slider_mask(is_bishop, square)),
        ) < row.len() && row[magic_index(s, magic, popcount(slider_mask(is_bishop, square))) as int]
            == slider_rays(is_bishop, square, s)
}

/// A collision-free magic multiplier: subsets that hash together share one
/// attack set.
pub open spec fn magic_good(is_bishop: bool, square: i32, magic: u64) -> bool {
    forall|s1: u64, s2: u64|
        #![trigger magic_index(s1, magic, popcount(slider_mask(is_bishop, square))), magic_index(s2, magic, popcount(slider_mask(is_bishop, square)))]
        (s1 & slider_mask(is_bishop, square) == s1 && s2 & slider_mask(is_bishop, square) == s2
            && magic_index(s1, magic, popcount(slider_mask(is_bishop, square))) == magic_index(
            s2,
            magic,
            popcount(slider_mask(is_bishop, square)),
        )) ==> slider_rays(is_bishop, square, s1) == slider_rays(is_bishop, square, s2)
}

/// Why the search passes a candidate over: the `n`-th draw of the stream
/// started at `start` either fails the top-byte pre-test (the mask's
/// product must feed at least six bits into the top byte) or merges two
/// blocker subsets with different attack sets.
pub open spec fn candidate_rejected(start: u32, is_bishop: bool, square: i32, n: nat) -> bool {
    let magic = crate::rand::magic_candidate_value(crate::rand::candidate_state_at(start, n));
    ||| popcount(slider_mask(is_bishop, square).wrapping_mul(magic) & 0xFF00_0000_0000_0000) < 6
    ||| !magic_good(is_bishop, square, magic)
}

/// The attack set of either slider kind, walked on the fly.
fn attacks_on_the_fly(square: i32, blocker: u64, is_bishop: bool) -> (r: u64)
    requires
        0 <= square < 64,
    ensures
        r == slider_rays(is_bishop, square, blocker),
{
    if is_bishop {
        bishop_attacks_on_the_fly(square, blocker)
    } else {
        rook_attacks_on_the_fly(square, blocker)
    }
}

/// Builds one square's lookup row under the given magic: writes the attack
/// set of every blocker subset at its hashed index, then re-reads every
/// subset and reports whether each entry still holds that subset's attack
/// set (a cleared flag means the magic merged subsets with different
/// attack sets).
fn fill_slider_row(square: i32, mask: u64, bits: usize, magic: u64, is_bishop: bool) -> (r: (
    Vec<u64>,
    bool,
))
    requires
        0 <= square < 64,
        mask == slider_mask(is_bishop, square),
        bits == popcount(mask),
        bits < 32,
    ensures
        r.0@.len() == vstd::arithmetic::power2::pow2(bits as nat),
        r.1 ==> row_good(r.0@, magic, is_bishop, square),
        magic_good(is_bishop, square, magic) ==> r.1,
{
    proof {
        vstd::bits::lemma_usize_pow2_no_overflow(bits as nat);
        vstd::bits::lemma_usize_shl_is_mul(1usize, bits);
    }
    let size = 1usize << bits;
    let ghost gsize = vstd::arithmetic::power2::pow2(bits as nat);

    let mut row: Vec<u64> = Vec::new();
    while row.len() < size
        invariant
            row@.len() <= size,
        decreases size - row@.len(),
    {
        row.push(0u64);
    }

    let mut i: usize = 0;
    while i < size
        invariant
            i <= size,
            row@.len() == size,
            size == gsize,
            gsize == vstd::arithmetic::power2::pow2(bits as nat),
            bits == popcount(mask),
            bits < 32,
            0 <= square < 64,
            mask == slider_mask(is_bishop, square),
            forall|k: nat|
                k < i ==> #[trigger] magic_index(place_bits(k, mask), magic, bits as nat) < size
                    && exists|j: nat|
                    #![auto]
                    j < i && magic_index(place_bits(j, mask), magic, bits as nat) == magic_index(
                        place_bits(k, mask),
                        magic,
                        bits as nat,
                    ) && row@[magic_index(place_bits(k, mask), magic, bits as nat) as int]
                        == slider_rays(is_bishop, square, place_bits(j, mask)),
        decreases size - i,
    {
        let occupancy = set_occupancy(i, bits, mask);
        let att = attacks_on_the_fly(square, occupancy, is_bishop);
        let idx = magic_index_exec(occupancy, magic, bits);
        proof {
            lemma_magic_index_bound(occupancy, magic, bits as nat);
        }
        let ghost row_prev = row@;
        row[idx as usize] = att;
        proof {
            // every slot written so far still holds the attack set of some
            // subset that hashes there: the fresh write is its own witness,
            // and the other slots kept theirs
            assert forall|k: nat| k < i + 1 implies #[trigger] magic_index(
                place_bits(k, mask),
                magic,
                bits as nat,
            ) < size && exists|j: nat|
                #![auto]
                j < i + 1 && magic_index(place_bits(j, mask), magic, bits as nat) == magic_index(
                    place_bits(k, mask),
                    magic,
                    bits as nat,
                ) && row@[magic_index(place_bits(k, mask), magic, bits as nat) as int]
                    == slider_rays(is_bishop, square, place_bits(j, mask)) by {
                if magic_index(place_bits(k, mask), magic, bits as nat) == magic_index(
                    place_bits(i as nat, mask),
                    magic,
                    bits as nat,
                ) {
                    assert(row@[magic_index(place_bits(k, mask), magic, bits as nat) as int]
                        == slider_rays(is_bishop, square, place_bits(i as nat, mask)));
                } else {
                    assert(k < i);
                    let j0 = choose|j: nat|
                        #![auto]
                        j < i && magic_index(place_bits(j, mask), magic, bits as nat)
                            == magic_index(place_bits(k, mask), magic, bits as nat)
                            && row_prev[magic_index(place_bits(k, mask), magic, bits as nat) as int]
                            == slider_rays(is_bishop, square, place_bits(j, mask));
                    assert(row@[magic_index(place_bits(k, mask), magic, bits as nat) as int]
                        == slider_rays(is_bishop, square, place_bits(j0, mask)));
                }
            }
        }
        i = i + 1;
    }

    proof {
        // under a collision-free magic the last writer of each slot shares
        // its attack set with every subset hashing there, so the whole row
        // is already pointwise correct
        if magic_good(is_bishop, square, magic) {
            assert forall|k: nat| k < gsize implies #[trigger] magic_index(
                place_bits(k, mask),
                magic,
                bits as nat,
            ) < size && row@[magic_index(place_bits(k, mask), magic, bits as nat) as int]
                == slider_rays(is_bishop, square, place_bits(k, mask)) by {
                let j0 = choose|j: nat|
                    #![auto]
                    j < gsize && magic_index(place_bits(j, mask), magic, bits as nat)
                        == magic_index(place_bits(k, mask), magic, bits as nat)
                        && row@[magic_index(place_bits(k, mask), magic, bits as nat) as int]
                        == slider_rays(is_bishop, square, place_bits(j, mask));
                lemma_place_bits_in_mask(k, mask);
                lemma_place_bits_in_mask(j0, mask);
                assert(slider_rays(is_bishop, square, place_bits(j0, mask)) == slider_rays(
                    is_bishop,
                    square,
                    place_bits(k, mask),
                ));
            }
        }
    }

    let mut ok = true;
    let mut i: usize = 0;
    while i < size
        invariant
            i <= size,
            row@.len() == size,
            size == gsize,
            gsize == vstd::arithmetic::power2::pow2(bits as nat),
            bits == popcount(mask),
            bits < 32,
            0 <= square < 64,
            mask == slider_mask(is_bishop, square),
            ok ==> forall|k: nat|
                k < i ==> #[trigger] magic_index(place_bits(k, mask), magic, bits as nat) < size
                    && row@[magic_index(place_bits(k, mask), magic, bits as nat) as int]
                    == slider_rays(is_bishop, square, place_bits(k, mask)),
            magic_good(is_bishop, square, magic) ==> ok && forall|k: nat|
                k < gsize ==> #[trigger] magic_index(place_bits(k, mask), magic, bits as nat)
                    < size && row@[magic_index(place_bits(k, mask), magic, bits as nat) as int]
                    == slider_rays(is_bishop, square, place_bits(k, mask)),
        decreases size - i,
    {
        let occupancy = set_occupancy(i, bits, mask);
        let att = attacks_on_the_fly(square, occupancy, is_bishop);
        let idx = magic_index_exec(occupancy, magic, bits);
        proof {
            lemma_magic_index_bound(occupancy, magic, bits as nat);
        }
        if row[idx as usize] != att {
            ok = false;
        }
        i = i + 1;
    }

    proof {
        if ok {
            assert forall|s: u64| s & mask == s implies #[trigger] magic_index(
                s,
                magic,
                popcount(slider_mask(is_bishop, square)),
            ) < row@.len() && row@[magic_index(
                s,
                magic,
                popcount(slider_mask(is_bishop, square)),
            ) as int] == slider_rays(is_bishop, square, s) by {
                lemma_place_subset(s, mask);
                assert(place_bits(subset_index(s, mask), mask) == s);
                assert(magic_index(place_bits(subset_index(s, mask), mask), magic, bits as nat)
                    < size);
            }
        }
    }
    (row, ok)
}

/// Searches the xorshift candidate stream for a magic multiplier that
/// hashes every blocker subset of the square's mask without merging two
/// subsets that have different attack sets. The result is fully determined
/// by the arguments: the returned multiplier is the first draw of the
/// stream threaded out of `random_state` that passes both the top-byte
/// pre-test and the collision check, paired with the stream's state after
/// that draw; `None` comes only once every draw of the capped stream was
/// rejected (callers then keep an unhashed table).
pub fn find_magic_number(random_state: u32, square: i32, relevant_bits: usize, is_bishop: bool) -> (r:
    Option<(u64, u32)>)
    requires
        0 <= square < 64,
        relevant_bits == popcount(slider_mask(is_bishop, square)),
        relevant_bits < 32,
    ensures
        r matches Some(found) ==> magic_good(is_bishop, square, found.0) && exists|n: nat|
            found.0 == crate::rand::magic_candidate_value(
                #[trigger] crate::rand::candidate_state_at(random_state, n),
            ) && found.1 == crate::rand::candidate_state_at(random_state, n + 1)
            && !candidate_rejected(random_state, is_bishop, square, n) && (forall|k: nat|
            k < n ==> candidate_rejected(random_state, is_bishop, square, k)),
        r is None ==> forall|n: nat|
            n < 100_000_000 ==> candidate_rejected(random_state, is_bishop, square, n),
{
    let mask = if is_bishop {
        mask_bishop_attacks(square)
    } else {
        mask_rook_attacks(square)
    };
    let mut last_rand = random_state;
    let mut attempts: u32 = 0;
    while attempts < 100_000_000
        invariant
            0 <= square < 64,
            relevant_bits == popcount(slider_mask(is_bishop, square)),
            relevant_bits < 32,
            mask == slider_mask(is_bishop, square),
            last_rand == crate::rand::candidate_state_at(random_state, attempts as nat),
            forall|n: nat|
                n < attempts ==> #[trigger] candidate_rejected(random_state, is_bishop, square, n),
        decreases 100_000_000 - attempts,
    {
        let ghost draw = attempts as nat;
        attempts = attempts + 1;
        let (magic, rnd) = crate::rand::next_magic_candidate(last_rand);
        last_rand = rnd;
        proof {
            assert(crate::rand::candidate_state_at(random_state, draw + 1)
                == crate::rand::magic_candidate_state(
                crate::rand::candidate_state_at(random_state, draw),
            ));
        }

        let top = mask.wrapping_mul(magic) & 0xFF00_0000_0000_0000u64;
        if bit_count(top) < 6 {
            proof {
                assert(candidate_rejected(random_state, is_bishop, square, draw));
            }
            continue ;
        }
        let (row, ok) = fill_slider_row(square, mask, relevant_bits, magic, is_bishop);
        proof {
            if !ok {
                assert(candidate_rejected(random_state, is_bishop, square, draw));
            }
        }
        if ok {
            proof {
                assert forall|s1: u64, s2: u64|
                    (s1 & slider_mask(is_bishop, square) == s1 && s2 & slider_mask(
                        is_bishop,
                        square,
                    ) == s2 && #[trigger] magic_index(
                        s1,
                        magic,
                        popcount(slider_mask(is_bishop, square)),
                    ) == #[trigger] magic_index(
                        s2,
                        magic,
                        popcount(slider_mask(is_bishop, square)),
                    )) implies slider_rays(is_bishop, square, s1) == slider_rays(
                    is_bishop,
                    square,
                    s2,
                ) by {
                    assert(row_good(row@, magic, is_bishop, square));
                }
            }
            proof {
                assert(magic == crate::rand::magic_candidate_value(
                    crate::rand::candidate_state_at(random_state, draw),
                ) && last_rand == crate::rand::candidate_state_at(random_state, draw + 1));
                assert(!candidate_rejected(random_state, is_bishop, square, draw));
            }
            return Some((magic, last_rand));
        }
    }
    None
}

} // verus!

verus! {

/// Known-good bishop magic multipliers, one per square, found by the
/// xorshift search; `Attacks::new` re-checks each before trusting it.
fn bishop_magic_numbers() -> [u64; 64] {
    [
        22698322406146064, 1205099108012032,
        9228087301064687616, 73187894424010752,
        1130444285345906, 4612275373907992576,
        2305988214307962881, 2306019103008638978,
        288866237490987264, 72216138562421252,
        1162214595146940544, 37163512463630369,
        2315977277682221568, 9368050759537001484,
        4611691533434038336, 38484651935748,
        594475288664083602, 9052289030553760,
        327074215130433544, 7298083213874892800,
        147492889954385920, 72093336789393409,
        10376383993509711872, 2341908098781939841,
        9239486531352396033, 2312604190083450881,
        1130332548499472, 4612816316921872896,
        18159534086299648, 148636654801256960,
        1162211278356744200, 70922811770880,
        1157434484545553041, 290539367752177667,
        17334400050057448448, 9259403035103723648,
        4515153089667584, 186354585114313280,
        581395369348858368, 720934383325946884,
        1585550262873362440, 330174554376773637,
        1171780878892830720, 2378079007612618752,
        211141968036416, 299273329573952,
        577025935659768325, 5910134490650908032,
        564067182052352, 4857645661978624,
        86695402290546696, 4828157972997996608,
        144124122148962304, 4508857473761281,
        2310771089116012544, 6918656061436134410,
        288250176238258186, 5774531719424258058,
        1152921783790252048, 2325469252946049,
        432381023788073472, 3476780081401086209,
        28237116734505473, 9223961384147108352,
    ]
}

/// Known-good rook magic multipliers, one per square, found by the
/// xorshift search; `Attacks::new` re-checks each before trusting it.
fn rook_magic_numbers() -> [u64; 64] {
    [
        36029347315843096, 2395915482942144836,
        4683761243343822848, 5800645116214378624,
        144117387167277064, 72061992218788096,
        4935947390663263488, 144120840269693010,
        586734589561537152, 310889386656923784,
        144678277649272896, 13835339598980451584,
        141287378387968, 216876478145757312,
        39406501303190056, 9386908999430996224,
        2323866753710456865, 4508272553886784,
        1442564753737138193, 4611829504963250176,
        9223672203663441924, 2309361996245500416,
        9238030728695972368, 9277804459638423812,
        36029077265653760, 1152956698642894848,
        1198476265293856, 2612378338414690576,
        1227232002265580944, 4612249870324477956,
        7116056435917058, 2305861159746216004,
        450430333637099553, 1342107942052167744,
        81099979820634120, 281509890101248,
        9232519990786131968, 577024595912038404,
        4909064335625552384, 12686640717271924801,
        11529250781270147073, 4503875042164736,
        864972740875059216, 2251868541583369,
        4647719213627113600, 9251519543116071040,
        11402004316553224, 6918093079257940004,
        282171843543808, 11558204743909632,
        589976018488426624, 153162004377436416,
        11533727443936608384, 18295890666586880,
        144258130091484160, 594485269764262400,
        9223392120675533314, 1729418542945669638,
        635517997811746, 4902449807076901963,
        4756364173907068930, 302304468669302826,
        565153280561156, 277027554306,
    ]
}

} // verus!

verus! {

/// The precomputed attack tables: leaper attack sets per square, slider
/// relevant-blocker masks, their bit counts, the magic multipliers, and the
/// hashed slider lookup rows. Immutable once built.
pub struct Attacks {
    /// Pawn attack sets, by side (White then Black) and square.
    pub pawn: Vec<Vec<u64>>,
    /// Knight attack sets by square.
    pub knight: Vec<u64>,
    /// King attack sets by square.
    pub king: Vec<u64>,
    /// Bishop lookup rows: row `sq` is indexed by the magic index of a
    /// blocker subset of the square's mask.
    pub bishop: Vec<Vec<u64>>,
    /// Rook lookup rows, as for `bishop`.
    pub rook: Vec<Vec<u64>>,
    /// Bishop relevant-blocker masks by square.
    pub bishop_masks: Vec<u64>,
    /// Rook relevant-blocker masks by square.
    pub rook_masks: Vec<u64>,
    /// Set-bit counts of the bishop masks.
    pub bishop_bits: Vec<usize>,
    /// Set-bit counts of the rook masks.
    pub rook_bits: Vec<usize>,
    /// The magic multiplier each bishop row was built with.
    pub bishop_magics: Vec<u64>,
    /// The magic multiplier each rook row was built with.
    pub rook_magics: Vec<u64>,
    /// Whether the bishop row of each square passed the collision check;
    /// a cleared flag sends lookups to the on-the-fly ray walk instead.
    pub bishop_hashed: Vec<bool>,
    /// As `bishop_hashed`, for the rook rows.
    pub rook_hashed: Vec<bool>,
}

impl Attacks {
    /// Table well-formedness: every leaper entry equals its attack-set
    /// spec, every mask and bit count matches its square, and every row
    /// whose hashed flag is set maps each blocker subset to its attack set.
    pub open spec fn wf(self) -> bool {
        &&& self.pawn@.len() == 2
        &&& self.pawn@[0]@.len() == 64
        &&& self.pawn@[1]@.len() == 64
        &&& forall|sq: int|
            0 <= sq < 64 ==> #[trigger] self.pawn@[0]@[sq] == pawn_attacks_bb(
                Side::White,
                sq as i32,
            )
        &&& forall|sq: int|
            0 <= sq < 64 ==> #[trigger] self.pawn@[1]@[sq] == pawn_attacks_bb(
                Side::Black,
                sq as i32,
            )
        &&& self.knight@.len() == 64
        &&& forall|sq: int|
            0 <= sq < 64 ==> #[trigger] self.knight@[sq] == knight_attacks_bb(sq as i32)
        &&& self.king@.len() == 64
        &&& forall|sq: int| 0 <= sq < 64 ==> #[trigger] self.king@[sq] == king_attacks_bb(sq as i32)
        &&& self.bishop_masks@.len() == 64
        &&& forall|sq: int|
            0 <= sq < 64 ==> #[trigger] self.bishop_masks@[sq] == bishop_mask_bb(sq as i32)
        &&& self.rook_masks@.len() == 64
        &&& forall|sq: int|
            0 <= sq < 64 ==> #[trigger] self.rook_masks@[sq] == rook_mask_bb(sq as i32)
        &&& self.bishop_bits@.len() == 64
        &&& forall|sq: int|
            0 <= sq < 64 ==> #[trigger] self.bishop_bits@[sq] == popcount(bishop_mask_bb(sq as i32))
                && self.bishop_bits@[sq] < 32
        &&& self.rook_bits@.len() == 64
        &&& forall|sq: int|
            0 <= sq < 64 ==> #[trigger] self.rook_bits@[sq] == popcount(rook_mask_bb(sq as i32))
                && self.rook_bits@[sq] < 32
        &&& self.bishop_magics@.len() == 64
        &&& self.rook_magics@.len() == 64
        &&& self.bishop@.len() == 64
        &&& self.rook@.len() == 64
        &&& self.bishop_hashed@.len() == 64
        &&& self.rook_hashed@.len() == 64
        &&& forall|sq: int|
            0 <= sq < 64 && #[trigger] self.bishop_hashed@[sq] ==> row_good(
                self.bishop@[sq]@,
                self.bishop_magics@[sq],
                true,
                sq as i32,
            )
        &&& forall|sq: int|
            0 <= sq < 64 && #[trigger] self.rook_hashed@[sq] ==> row_good(
                self.rook@[sq]@,
                self.rook_magics@[sq],
                false,
                sq as i32,
            )
    }

    /// Builds the full table set: leaper attacks per square, slider masks
    /// and bit counts, and the hashed slider rows. Each embedded magic is
    /// re-checked against every blocker subset of its square; a failed
    /// check first falls back to a fresh magic search, then to the
    /// on-the-fly ray walk for that square.
    pub fn new() -> (r: Attacks)
        ensures
            r.wf(),
    {
        let mut pawn_white: Vec<u64> = Vec::new();
        let mut pawn_black: Vec<u64> = Vec::new();
        let mut knight: Vec<u64> = Vec::new();
        let mut king: Vec<u64> = Vec::new();
        let mut square: i32 = 0;
        while square < 64
            invariant
                0 <= square <= 64,
                pawn_white@.len() == square,
                pawn_black@.len() == square,
                knight@.len() == square,
                king@.len() == square,
                forall|sq: int|
                    0 <= sq < square ==> #[trigger] pawn_white@[sq] == pawn_attacks_bb(
                        Side::White,
                        sq as i32,
                    ),
                forall|sq: int|
                    0 <= sq < square ==> #[trigger] pawn_black@[sq] == pawn_attacks_bb(
                        Side::Black,
                        sq as i32,
                    ),
                forall|sq: int|
                    0 <= sq < square ==> #[trigger] knight@[sq] == knight_attacks_bb(sq as i32),
                forall|sq: int|
                    0 <= sq < square ==> #[trigger] king@[sq] == king_attacks_bb(sq as i32),
            decreases 64 - square,
        {
            pawn_white.push(mask_pawn_attacks(square, Side::White));
            pawn_black.push(mask_pawn_attacks(square, Side::Black));
            knight.push(mask_knight_attacks(square));
            king.push(mask_king_attacks(square));
            square = square + 1;
        }
        let mut pawn: Vec<Vec<u64>> = Vec::new();
        pawn.push(pawn_white);
        pawn.push(pawn_black);

        let bishop_magic_init = bishop_magic_numbers();
        let rook_magic_init = rook_magic_numbers();

        let mut bishop_masks: Vec<u64> = Vec::new();
        let mut rook_masks: Vec<u64> = Vec::new();
        let mut bishop_bits: Vec<usize> = Vec::new();
        let mut rook_bits: Vec<usize> = Vec::new();
        let mut bishop: Vec<Vec<u64>> = Vec::new();
        let mut rook: Vec<Vec<u64>> = Vec::new();
        let mut bishop_magics: Vec<u64> = Vec::new();
        let mut rook_magics: Vec<u64> = Vec::new();
        let mut bishop_hashed: Vec<bool> = Vec::new();
        let mut rook_hashed: Vec<bool> = Vec::new();
        let mut random_state: u32 = 1804289383;

        let mut square: i32 = 0;
        while square < 64
            invariant
                0 <= square <= 64,
                bishop_masks@.len() == square,
                rook_masks@.len() == square,
                bishop_bits@.len() == square,
                rook_bits@.len() == square,
                bishop@.len() == square,
                rook@.len() == square,
                bishop_magics@.len() == square,
                rook_magics@.len() == square,
                bishop_hashed@.len() == square,
                rook_hashed@.len() == square,
                forall|sq: int|
                    0 <= sq < square ==> #[trigger] bishop_masks@[sq] == bishop_mask_bb(sq as i32),
                forall|sq: int|
                    0 <= sq < square ==> #[trigger] rook_masks@[sq] == rook_mask_bb(sq as i32),
                forall|sq: int|
                    0 <= sq < square ==> #[trigger] bishop_bits@[sq] == popcount(
                        bishop_mask_bb(sq as i32),
                    ) && bishop_bits@[sq] < 32,
                forall|sq: int|
                    0 <= sq < square ==> #[trigger] rook_bits@[sq] == popcount(
                        rook_mask_bb(sq as i32),
                    ) && rook_bits@[sq] < 32,
                forall|sq: int|
                    0 <= sq < square && #[trigger] bishop_hashed@[sq] ==> row_good(
                        bishop@[sq]@,
                        bishop_magics@[sq],
                        true,
                        sq as i32,
                    ),
                forall|sq: int|
                    0 <= sq < square && #[trigger] rook_hashed@[sq] ==> row_good(
                        rook@[sq]@,
                        rook_magics@[sq],
                        false,
                        sq as i32,
                    ),
            decreases 64 - square,
        {
            let bmask = mask_bishop_attacks(square);
            let bbits_count = bit_count(bmask);
            proof {
                lemma_slider_mask_bits(true, square);
            }
            let bbits = bbits_count as usize;
            let mut bmagic = bishop_magic_init[square as usize];
            let (mut brow, mut bok) = fill_slider_row(square, bmask, bbits, bmagic, true);
            if !bok {
                let found = find_magic_number(random_state, square, bbits, true);
                match found {
                    Some(pair) => {
                        random_state = pair.1;
                        bmagic = pair.0;
                        let refill = fill_slider_row(square, bmask, bbits, bmagic, true);
                        brow = refill.0;
                        bok = refill.1;
                    },
                    None => {
                        bok = false;
                    },
                }
            }
            bishop_masks.push(bmask);
            bishop_bits.push(bbits);
            bishop.push(brow);
            bishop_magics.push(bmagic);
            bishop_hashed.push(bok);

            let rmask = mask_rook_attacks(square);
            let rbits_count = bit_count(rmask);
            proof {
                lemma_slider_mask_bits(false, square);
            }
            let rbits = rbits_count as usize;
            let mut rmagic = rook_magic_init[square as usize];
            let (mut rrow, mut rok) = fill_slider_row(square, rmask, rbits, rmagic, false);
            if !rok {
                let found = find_magic_number(random_state, square, rbits, false);
                match found {
                    Some(pair) => {
                        random_state = pair.1;
                        rmagic = pair.0;
                        let refill = fill_slider_row(square, rmask, rbits, rmagic, false);
                        rrow = refill.0;
                        rok = refill.1;
                    },
                    None => {
                        rok = false;
                    },
                }
            }
            rook_masks.push(rmask);
            rook_bits.push(rbits);
            rook.push(rrow);
            rook_magics.push(rmagic);
            rook_hashed.push(rok);

            square = square + 1;
        }

        Attacks {
            pawn,
            knight,
            king,
            bishop,
            rook,
            bishop_masks,
            rook_masks,
            bishop_bits,
            rook_bits,
            bishop_magics,
            rook_magics,
            bishop_hashed,
            rook_hashed,
        }
    }

    /// The attack set of a pawn of `side` on `square`.
    pub fn get_pawn_attacks(&self, square: i32, side: Side) -> (r: u64)
        requires
            self.wf(),
            0 <= square < 64,
            side != Side::Both,
        ensures
            r == pawn_attacks_bb(side, square),
    {
        let s = crate::board::side_index(side);
        proof {
            if side == Side::White {
                assert(self.pawn@[0]@[square as int] == pawn_attacks_bb(Side::White, square));
            } else {
                assert(self.pawn@[1]@[square as int] == pawn_attacks_bb(Side::Black, square));
            }
        }
        self.pawn[s][square as usize]
    }

    /// The attack set of a knight on `square`.
    pub fn get_knight_attacks(&self, square: i32) -> (r: u64)
        requires
            self.wf(),
            0 <= square < 64,
        ensures
            r == knight_attacks_bb(square),
    {
        self.knight[square as usize]
    }

    /// The attack set of a king on `square`.
    pub fn get_king_attacks(&self, square: i32) -> (r: u64)
        requires
            self.wf(),
            0 <= square < 64,
        ensures
            r == king_attacks_bb(square),
    {
        self.king[square as usize]
    }

    /// The attack set of a bishop on `square` given the occupancy: the
    /// diagonal rays stopped at the first blocker in each direction.
    pub fn get_bishop_attacks(&self, square: i32, occupancy: u64) -> (r: u64)
        requires
            self.wf(),
            0 <= square < 64,
        ensures
            r == bishop_rays(square, occupancy & bishop_mask_bb(square)),
    {
        let sq = square as usize;
        let masked = occupancy & self.bishop_masks[sq];
        proof {
            assert(self.bishop_masks@[square as int] == bishop_mask_bb(square));
            let m = bishop_mask_bb(square);
            assert((occupancy & m) & m == occupancy & m) by (bit_vector);
        }
        if self.bishop_hashed[sq] {
            let bits = self.bishop_bits[sq];
            let magic = self.bishop_magics[sq];
            let idx = magic_index_exec(masked, magic, bits);
            proof {
                assert(row_good(self.bishop@[square as int]@, self.bishop_magics@[square as int], true, square));
                assert(bits == popcount(slider_mask(true, square)));
                assert(magic_index(masked, magic, popcount(slider_mask(true, square)))
                    < self.bishop@[square as int]@.len() && self.bishop@[square as int]@[magic_index(
                    masked,
                    magic,
                    popcount(slider_mask(true, square)),
                ) as int] == slider_rays(true, square, masked));
                assert(idx == magic_index(masked, magic, popcount(slider_mask(true, square))));
            }
            self.bishop[sq][idx as usize]
        } else {
            bishop_attacks_on_the_fly(square, masked)
        }
    }

    /// The attack set of a rook on `square` given the occupancy: the
    /// orthogonal rays stopped at the first blocker in each direction.
    pub fn get_rook_attacks(&self, square: i32, occupancy: u64) -> (r: u64)
        requires
            self.wf(),
            0 <= square < 64,
        ensures
            r == rook_rays(square, occupancy & rook_mask_bb(square)),
    {
        let sq = square as usize;
        let masked = occupancy & self.rook_masks[sq];
        proof {
            assert(self.rook_masks@[square as int] == rook_mask_bb(square));
            let m = rook_mask_bb(square);
            assert((occupancy & m) & m == occupancy & m) by (bit_vector);
        }
        if self.rook_hashed[sq] {
            let bits = self.rook_bits[sq];
            let magic = self.rook_magics[sq];
            let idx = magic_index_exec(masked, magic, bits);
            proof {
                assert(row_good(self.rook@[square as int]@, self.rook_magics@[square as int], false, square));
                assert(bits == popcount(slider_mask(false, square)));
                assert(magic_index(masked, magic, popcount(slider_mask(false, square)))
                    < self.rook@[square as int]@.len() && self.rook@[square as int]@[magic_index(
                    masked,
                    magic,
                    popcount(slider_mask(false, square)),
                ) as int] == slider_rays(false, square, masked));
                assert(idx == magic_index(masked, magic, popcount(slider_mask(false, square))));
            }
            self.rook[sq][idx as usize]
        } else {
            rook_attacks_on_the_fly(square, masked)
        }
    }

    /// The attack set of a queen on `square`: the union of the bishop and
    /// rook attack sets.
    pub fn get_queen_attacks(&self, square: i32, occupancy: u64) -> (r: u64)
        requires
            self.wf(),
            0 <= square < 64,
        ensures
            r == (bishop_rays(square, occupancy & bishop_mask_bb(square)) | rook_rays(
                square,
                occupancy & rook_mask_bb(square),
            )),
    {
        self.get_bishop_attacks(square, occupancy) | self.get_rook_attacks(square, occupancy)
    }
}

/// The magic-index function of a hashed row never merges two blocker
/// subsets of the square's mask that have different attack sets: entries
/// that collide carry equal attack sets, so every lookup through the hash
/// returns exactly the attack set of its blocker subset.
pub proof fn lemma_magic_no_bad_collision(
    atk: Attacks,
    is_bishop: bool,
    square: i32,
    s1: u64,
    s2: u64,
)
    requires
        atk.wf(),
        0 <= square < 64,
        is_bishop ==> atk.bishop_hashed@[square as int],
        !is_bishop ==> atk.rook_hashed@[square as int],
        s1 & slider_mask(is_bishop, square) == s1,
        s2 & slider_mask(is_bishop, square) == s2,
        magic_index(
            s1,
            if is_bishop {
                atk.bishop_magics@[square as int]
            } else {
                atk.rook_magics@[square as int]
            },
            popcount(slider_mask(is_bishop, square)),
        ) == magic_index(
            s2,
            if is_bishop {
                atk.bishop_magics@[square as int]
            } else {
                atk.rook_magics@[square as int]
            },
            popcount(slider_mask(is_bishop, square)),
        ),
    ensures
        slider_rays(is_bishop, square, s1) == slider_rays(is_bishop, square, s2),
{
    if is_bishop {
        assert(row_good(atk.bishop@[square as int]@, atk.bishop_magics@[square as int], true, square));
    } else {
        assert(row_good(atk.rook@[square as int]@, atk.rook_magics@[square as int], false, square));
    }
}

} // verus!

verus! {

/// The board flipped top to bottom: the byte of each rank moves to the
/// opposite rank, so square `s` lands on square `s ^ 56`.
pub open spec fn mirror_bb(b: u64) -> u64 {
    ((b & 0xFF) << 56u64) | ((b & 0xFF00) << 40u64) | ((b & 0xFF0000) << 24u64) | ((b & 0xFF000000)
        << 8u64) | ((b >> 8u64) & 0xFF000000) | ((b >> 24u64) & 0xFF0000) | ((b >> 40u64) & 0xFF00)
        | (b >> 56u64)
}

/// The mirror distributes over union and intersection, keeps emptiness, and
/// carries each square to its mirrored square.
pub proof fn lemma_mirror_facts()
    by (bit_vector)
    ensures
        forall|x: u64, y: u64| #[trigger] mirror_bb(x | y) == mirror_bb(x) | mirror_bb(y),
        forall|x: u64, y: u64| #[trigger] mirror_bb(x & y) == mirror_bb(x) & mirror_bb(y),
        forall|x: u64| (#[trigger] mirror_bb(x) == 0) <==> x == 0,
{
}

/// Mirrored squares: `s ^ 56` flips the rank and keeps the file, and its
/// single-square bitboard is the mirrored one.
pub proof fn lemma_mirror_square(s: i32)
    requires
        0 <= s < 64,
    ensures
        0 <= (s ^ 56i32) < 64,
        (s ^ 56i32) / 8 == 7 - s / 8,
        (s ^ 56i32) % 8 == s % 8,
        square_bb(s ^ 56i32) == mirror_bb(square_bb(s)),
{
    assert(0 <= (s ^ 56i32) < 64 && (s ^ 56i32) / 8 == 7 - s / 8 && (s ^ 56i32) % 8 == s % 8
        && square_bb(s ^ 56i32) == mirror_bb(square_bb(s))) by (bit_vector)
        requires 0 <= s < 64;
}

/// A ray from the mirrored square, with its rank direction reversed, against
/// the mirrored blockers, attacks exactly the mirror of the original ray.
#[verifier::rlimit(100)]
#[verifier::spinoff_prover]
proof fn lemma_ray_attacks_mirror(rank: int, file: int, dr: int, df: int, blockers: u64)
    requires
        -1 <= dr <= 1,
        -1 <= df <= 1,
        !(dr == 0 && df == 0),
        0 <= rank < 8,
        0 <= file < 8,
    ensures
        ray_attacks(7 - rank, file, -dr, df, mirror_bb(blockers)) == mirror_bb(
            ray_attacks(rank, file, dr, df, blockers),
        ),
    decreases ray_len(rank, file, dr, df),
{
    lemma_mirror_facts();
    let nr = rank + dr;
    let nf = file + df;
    if !(0 <= nr < 8 && 0 <= nf < 8) {
        assert(mirror_bb(0u64) == 0u64);
    } else {
        let sq = (nr * 8 + nf) as i32;
        lemma_mirror_square(sq);
        let ri: i32 = nr as i32;
        let fi: i32 = nf as i32;
        let msq: i32 = ((7 - nr) * 8 + nf) as i32;
        assert((sq ^ 56i32) == msq) by (bit_vector)
            requires 0 <= ri < 8 && 0 <= fi < 8 && sq == ri * 8 + fi && msq == (7 - ri) * 8 + fi;
        assert(has_square(mirror_bb(blockers), ((7 - nr) * 8 + nf) as i32) == has_square(
            blockers,
            sq,
        )) by {
            assert(mirror_bb(blockers) & mirror_bb(square_bb(sq)) == mirror_bb(
                blockers & square_bb(sq),
            ));
        }
        if !has_square(blockers, sq) {
            lemma_ray_attacks_mirror(nr, nf, dr, df, blockers);
        }
    }
}

/// The relevant-blocker mask of a ray mirrors the same way.
#[verifier::rlimit(100)]
#[verifier::spinoff_prover]
proof fn lemma_ray_mask_mirror(rank: int, file: int, dr: int, df: int)
    requires
        -1 <= dr <= 1,
        -1 <= df <= 1,
        !(dr == 0 && df == 0),
        0 <= rank < 8,
        0 <= file < 8,
    ensures
        ray_mask(7 - rank, file, -dr, df) == mirror_bb(ray_mask(rank, file, dr, df)),
    decreases ray_len(rank, file, dr, df),
{
    lemma_mirror_facts();
    let nr = rank + dr;
    let nf = file + df;
    if !(0 <= nr < 8 && 0 <= nf < 8) {
        assert(mirror_bb(0u64) == 0u64);
    } else if !(0 <= nr + dr < 8 && 0 <= nf + df < 8) {
        assert(mirror_bb(0u64) == 0u64);
    } else {
        let sq = (nr * 8 + nf) as i32;
        lemma_mirror_square(sq);
        let ri: i32 = nr as i32;
        let fi: i32 = nf as i32;
        let msq: i32 = ((7 - nr) * 8 + nf) as i32;
        assert((sq ^ 56i32) == msq) by (bit_vector)
            requires 0 <= ri < 8 && 0 <= fi < 8 && sq == ri * 8 + fi && msq == (7 - ri) * 8 + fi;
        lemma_ray_mask_mirror(nr, nf, dr, df);
    }
}

/// The bishop's mask and attack set commute with the board mirror.
proof fn lemma_bishop_mirror(s: i32, blockers: u64)
    requires
        0 <= s < 64,
    ensures
        bishop_mask_bb(s ^ 56i32) == mirror_bb(bishop_mask_bb(s)),
        bishop_rays(s ^ 56i32, mirror_bb(blockers)) == mirror_bb(bishop_rays(s, blockers)),
{
    lemma_mirror_facts();
    lemma_mirror_square(s);
    let r = s as int / 8;
    let f = s as int % 8;
    lemma_ray_attacks_mirror(r, f, -1, -1, blockers);
    lemma_ray_attacks_mirror(r, f, -1, 1, blockers);
    lemma_ray_attacks_mirror(r, f, 1, -1, blockers);
    lemma_ray_attacks_mirror(r, f, 1, 1, blockers);
    let m1 = mirror_bb(ray_attacks(r, f, -1, -1, blockers));
    let m2 = mirror_bb(ray_attacks(r, f, -1, 1, blockers));
    let m3 = mirror_bb(ray_attacks(r, f, 1, -1, blockers));
    let m4 = mirror_bb(ray_attacks(r, f, 1, 1, blockers));
    assert(m3 | m4 | m1 | m2 == m1 | m2 | m3 | m4) by (bit_vector);
    lemma_ray_mask_mirror(r, f, -1, -1);
    lemma_ray_mask_mirror(r, f, -1, 1);
    lemma_ray_mask_mirror(r, f, 1, -1);
    lemma_ray_mask_mirror(r, f, 1, 1);
    let k1 = mirror_bb(ray_mask(r, f, -1, -1));
    let k2 = mirror_bb(ray_mask(r, f, -1, 1));
    let k3 = mirror_bb(ray_mask(r, f, 1, -1));
    let k4 = mirror_bb(ray_mask(r, f, 1, 1));
    assert(k3 | k4 | k1 | k2 == k1 | k2 | k3 | k4) by (bit_vector);
}

/// The rook's mask and attack set commute with the board mirror.
proof fn lemma_rook_mirror(s: i32, blockers: u64)
    requires
        0 <= s < 64,
    ensures
        rook_mask_bb(s ^ 56i32) == mirror_bb(rook_mask_bb(s)),
        rook_rays(s ^ 56i32, mirror_bb(blockers)) == mirror_bb(rook_rays(s, blockers)),
{
    lemma_mirror_facts();
    lemma_mirror_square(s);
    let r = s as int / 8;
    let f = s as int % 8;
    lemma_ray_attacks_mirror(r, f, -1, 0, blockers);
    lemma_ray_attacks_mirror(r, f, 0, -1, blockers);
    lemma_ray_attacks_mirror(r, f, 1, 0, blockers);
    lemma_ray_attacks_mirror(r, f, 0, 1, blockers);
    let m1 = mirror_bb(ray_attacks(r, f, -1, 0, blockers));
    let m2 = mirror_bb(ray_attacks(r, f, 0, -1, blockers));
    let m3 = mirror_bb(ray_attacks(r, f, 1, 0, blockers));
    let m4 = mirror_bb(ray_attacks(r, f, 0, 1, blockers));
    assert(m3 | m2 | m1 | m4 == m1 | m2 | m3 | m4) by (bit_vector);
    lemma_ray_mask_mirror(r, f, -1, 0);
    lemma_ray_mask_mirror(r, f, 0, -1);
    lemma_ray_mask_mirror(r, f, 1, 0);
    lemma_ray_mask_mirror(r, f, 0, 1);
    let k1 = mirror_bb(ray_mask(r, f, -1, 0));
    let k2 = mirror_bb(ray_mask(r, f, 0, -1));
    let k3 = mirror_bb(ray_mask(r, f, 1, 0));
    let k4 = mirror_bb(ray_mask(r, f, 0, 1));
    assert(k3 | k2 | k1 | k4 == k1 | k2 | k3 | k4) by (bit_vector);
}

/// The attack sets of every piece kind commute with the board mirror: the
/// attack set from the mirrored square (for pawns: of the opposite colour)
/// is the mirror of the original attack set, and the slider masks mirror
/// with their squares.
pub proof fn lemma_attacks_mirror(s: i32, blockers: u64)
    requires
        0 <= s < 64,
    ensures
        knight_attacks_bb(s ^ 56i32) == mirror_bb(knight_attacks_bb(s)),
        king_attacks_bb(s ^ 56i32) == mirror_bb(king_attacks_bb(s)),
        pawn_attacks_bb(Side::White, s ^ 56i32) == mirror_bb(pawn_attacks_bb(Side::Black, s)),
        pawn_attacks_bb(Side::Black, s ^ 56i32) == mirror_bb(pawn_attacks_bb(Side::White, s)),
        bishop_mask_bb(s ^ 56i32) == mirror_bb(bishop_mask_bb(s)),
        rook_mask_bb(s ^ 56i32) == mirror_bb(rook_mask_bb(s)),
        bishop_rays(s ^ 56i32, mirror_bb(blockers)) == mirror_bb(bishop_rays(s, blockers)),
        rook_rays(s ^ 56i32, mirror_bb(blockers)) == mirror_bb(rook_rays(s, blockers)),
{
    assert(knight_attacks_bb(s ^ 56i32) == mirror_bb(knight_attacks_bb(s))) by (bit_vector)
        requires 0 <= s < 64;
    assert(king_attacks_bb(s ^ 56i32) == mirror_bb(king_attacks_bb(s))) by (bit_vector)
        requires 0 <= s < 64;
    assert(pawn_attacks_bb(Side::White, s ^ 56i32) == mirror_bb(pawn_attacks_bb(Side::Black, s))
        && pawn_attacks_bb(Side::Black, s ^ 56i32) == mirror_bb(
        pawn_attacks_bb(Side::White, s),
    )) by (bit_vector)
        requires 0 <= s < 64;
    lemma_bishop_mirror(s, blockers);
    lemma_rook_mirror(s, blockers);
}

} // verus!
