//! Square indices, rank-major from a8 = 0 to h1 = 63.

use vstd::prelude::*;

verus! {

#[allow(non_upper_case_globals)]
pub const a8: i32 = 0;

#[allow(non_upper_case_globals)]
pub const b8: i32 = 1;

#[allow(non_upper_case_globals)]
pub const c8: i32 = 2;

#[allow(non_upper_case_globals)]
pub const d8: i32 = 3;

#[allow(non_upper_case_globals)]
pub const e8: i32 = 4;

#[allow(non_upper_case_globals)]
pub const f8: i32 = 5;

#[allow(non_upper_case_globals)]
pub const g8: i32 = 6;

#[allow(non_upper_case_globals)]
pub const h8: i32 = 7;

#[allow(non_upper_case_globals)]
pub const a7: i32 = 8;

#[allow(non_upper_case_globals)]
pub const b7: i32 = 9;

#[allow(non_upper_case_globals)]
pub const c7: i32 = 10;

#[allow(non_upper_case_globals)]
pub const d7: i32 = 11;

#[allow(non_upper_case_globals)]
pub const e7: i32 = 12;

#[allow(non_upper_case_globals)]
pub const f7: i32 = 13;

#[allow(non_upper_case_globals)]
pub const g7: i32 = 14;

#[allow(non_upper_case_globals)]
pub const h7: i32 = 15;

#[allow(non_upper_case_globals)]
pub const a6: i32 = 16;

#[allow(non_upper_case_globals)]
pub const b6: i32 = 17;

#[allow(non_upper_case_globals)]
pub const c6: i32 = 18;

#[allow(non_upper_case_globals)]
pub const d6: i32 = 19;

#[allow(non_upper_case_globals)]
pub const e6: i32 = 20;

#[allow(non_upper_case_globals)]
pub const f6: i32 = 21;

#[allow(non_upper_case_globals)]
pub const g6: i32 = 22;

#[allow(non_upper_case_globals)]
pub const h6: i32 = 23;

#[allow(non_upper_case_globals)]
pub const a5: i32 = 24;

#[allow(non_upper_case_globals)]
pub const b5: i32 = 25;

#[allow(non_upper_case_globals)]
pub const c5: i32 = 26;

#[allow(non_upper_case_globals)]
pub const d5: i32 = 27;

#[allow(non_upper_case_globals)]
pub const e5: i32 = 28;

#[allow(non_upper_case_globals)]
pub const f5: i32 = 29;

#[allow(non_upper_case_globals)]
pub const g5: i32 = 30;

#[allow(non_upper_case_globals)]
pub const h5: i32 = 31;

#[allow(non_upper_case_globals)]
pub const a4: i32 = 32;

#[allow(non_upper_case_globals)]
pub const b4: i32 = 33;

#[allow(non_upper_case_globals)]
pub const c4: i32 = 34;

#[allow(non_upper_case_globals)]
pub const d4: i32 = 35;

#[allow(non_upper_case_globals)]
pub const e4: i32 = 36;

#[allow(non_upper_case_globals)]
pub const f4: i32 = 37;

#[allow(non_upper_case_globals)]
pub const g4: i32 = 38;

#[allow(non_upper_case_globals)]
pub const h4: i32 = 39;

#[allow(non_upper_case_globals)]
pub const a3: i32 = 40;

#[allow(non_upper_case_globals)]
pub const b3: i32 = 41;

#[allow(non_upper_case_globals)]
pub const c3: i32 = 42;

#[allow(non_upper_case_globals)]
pub const d3: i32 = 43;

#[allow(non_upper_case_globals)]
pub const e3: i32 = 44;

#[allow(non_upper_case_globals)]
pub const f3: i32 = 45;

#[allow(non_upper_case_globals)]
pub const g3: i32 = 46;

#[allow(non_upper_case_globals)]
pub const h3: i32 = 47;

#[allow(non_upper_case_globals)]
pub const a2: i32 = 48;

#[allow(non_upper_case_globals)]
pub const b2: i32 = 49;

#[allow(non_upper_case_globals)]
pub const c2: i32 = 50;

#[allow(non_upper_case_globals)]
pub const d2: i32 = 51;

#[allow(non_upper_case_globals)]
pub const e2: i32 = 52;

#[allow(non_upper_case_globals)]
pub const f2: i32 = 53;

#[allow(non_upper_case_globals)]
pub const g2: i32 = 54;

#[allow(non_upper_case_globals)]
pub const h2: i32 = 55;

#[allow(non_upper_case_globals)]
pub const a1: i32 = 56;

#[allow(non_upper_case_globals)]
pub const b1: i32 = 57;

#[allow(non_upper_case_globals)]
pub const c1: i32 = 58;

#[allow(non_upper_case_globals)]
pub const d1: i32 = 59;

#[allow(non_upper_case_globals)]
pub const e1: i32 = 60;

#[allow(non_upper_case_globals)]
pub const f1: i32 = 61;

#[allow(non_upper_case_globals)]
pub const g1: i32 = 62;

#[allow(non_upper_case_globals)]
pub const h1: i32 = 63;

/// Sentinel for "no square"; never a member of a bitboard.
pub const NO_SQUARE: i32 = -1;

/// The square on the given rank and file, both counted from the top-left
/// corner a8 (rank 0 is the 8th rank, file 0 is the a-file).
pub fn get_square(rank: i32, file: i32) -> (r: i32)
    requires
        0 <= rank < 8,
        0 <= file < 8,
    ensures
        r == rank * 8 + file,
{
    rank * 8 + file
}

/// The square an algebraic cell names, or the `NO_SQUARE` sentinel for
/// malformed bytes.
pub open spec fn spec_square_of_cell(file_byte: u8, rank_byte: u8) -> int {
    if 97 <= file_byte < 105 && 49 <= rank_byte < 57 {
        (56 - 8 * (rank_byte - 49)) + (file_byte - 97)
    } else {
        -1
    }
}

/// The square named by two ASCII bytes, file letter then rank digit
/// (`b"e4"` names e4); `NO_SQUARE` when the bytes name no square.
pub fn square_of_cell(file_byte: u8, rank_byte: u8) -> (r: i32)
    ensures
        r == spec_square_of_cell(file_byte, rank_byte),
{
    if 97 <= file_byte && file_byte < 105 && 49 <= rank_byte && rank_byte < 57 {
        let rank_from_bottom = (rank_byte - 49) as i32;
        let file = (file_byte - 97) as i32;
        (56 - 8 * rank_from_bottom) + file
    } else {
        NO_SQUARE
    }
}

} // verus!
