//! Bit primitives over 64-bit bitboards.
//!
//! Bit `i` of a bitboard stands for square `i`, with squares numbered
//! rank-major from a8 = 0 to h1 = 63.

use vstd::prelude::*;
use vstd::std_specs::bits::u64_trailing_zeros;

verus! {

/// Every square except those on file a.
pub const NOT_A_FILE: u64 = 0xFEFE_FEFE_FEFE_FEFE;

/// Every square except those on file h.
pub const NOT_H_FILE: u64 = 0x7F7F_7F7F_7F7F_7F7F;

/// Every square except those on files a and b.
pub const NOT_AB_FILE: u64 = 0xFCFC_FCFC_FCFC_FCFC;

/// Every square except those on files g and h.
pub const NOT_GH_FILE: u64 = 0x3F3F_3F3F_3F3F_3F3F;

/// The bitboard holding exactly `square`, or the empty bitboard when
/// `square` is out of range (including the `NO_SQUARE` sentinel).
pub open spec fn square_bb(square: i32) -> u64 {
    if 0 <= square < 64 {
        1u64 << (square as u64)
    } else {
        0u64
    }
}

/// Whether `square` is a member of `bitboard`.
pub open spec fn has_square(bitboard: u64, square: i32) -> bool {
    bitboard & square_bb(square) != 0
}

/// The number of squares a bitboard holds.
pub open spec fn popcount(bitboard: u64) -> nat
    decreases bitboard,
{
    if bitboard == 0 {
        0
    } else {
        (bitboard % 2) as nat + popcount(bitboard / 2)
    }
}

/// The lowest set bit of `bitboard`, kept as a bitboard (0 when empty).
pub open spec fn lsb_bb(bitboard: u64) -> u64 {
    bitboard & 0u64.wrapping_sub(bitboard)
}

/// `bitboard` with its lowest set bit cleared (0 stays 0).
pub open spec fn drop_lsb(bitboard: u64) -> u64 {
    bitboard & bitboard.wrapping_sub(1)
}

/// Membership facts for the boolean algebra of bitboards.
pub broadcast proof fn lemma_or_member(a: u64, b: u64, s: i32)
    ensures
        #[trigger] has_square(a | b, s) <==> (has_square(a, s) || has_square(b, s)),
{
    assert(((a | b) & square_bb(s) != 0) == (a & square_bb(s) != 0 || b & square_bb(s) != 0))
        by (bit_vector);
}

/// Membership in a set difference.
pub broadcast proof fn lemma_diff_member(a: u64, b: u64, s: i32)
    ensures
        #[trigger] has_square(a & !b, s) <==> (has_square(a, s) && !has_square(b, s)),
{
    assert(((a & !b) & square_bb(s) != 0) == (a & square_bb(s) != 0 && !(b & square_bb(s) != 0)))
        by (bit_vector);
}

/// A square lies off the top and bottom ranks exactly when its bitboard
/// misses both rank masks.
pub proof fn lemma_back_rank_square(s: i32)
    requires
        0 <= s < 64,
    ensures
        (8 <= s < 56) <==> (square_bb(s) & 0xFF == 0 && square_bb(s) & 0xFF00_0000_0000_0000
            == 0),
{
    let su = s as u64;
    assert((8 <= su < 56) == ((1u64 << su) & 0xFF == 0 && (1u64 << su) & 0xFF00_0000_0000_0000
        == 0)) by (bit_vector)
        requires su < 64;
}

/// A single-square bitboard holds that square and no other.
pub broadcast proof fn lemma_square_bb_member(s: i32, t: i32)
    requires
        0 <= s < 64,
    ensures
        #[trigger] has_square(square_bb(s), t) <==> s == t,
{
    let su = s as u64;
    let tu = t as u64;
    if 0 <= t < 64 {
        assert(((1u64 << su) & (1u64 << tu) != 0) == (su == tu)) by (bit_vector)
            requires su < 64 && tu < 64;
    } else {
        assert((1u64 << su) & 0 == 0) by (bit_vector);
    }
}

/// Two bitboards intersect exactly when they share a square.
pub proof fn lemma_collide_member(a: u64, b: u64)
    ensures
        (a & b != 0) <==> exists|s: i32| 0 <= s < 64 && has_square(a, s) && has_square(b, s),
{
    if a & b != 0 {
        let t = u64_trailing_zeros(a & b);
        vstd::std_specs::bits::axiom_u64_trailing_zeros(a & b);
        let c = a & b;
        let tu = t as u64;
        assert(a & square_bb(tu as i32) != 0 && b & square_bb(tu as i32) != 0) by (bit_vector)
            requires tu < 64 && (c >> tu) & 1u64 == 1u64 && c == a & b;
        assert(has_square(a, t as i32) && has_square(b, t as i32));
    }
    if exists|s: i32| 0 <= s < 64 && has_square(a, s) && has_square(b, s) {
        let s = choose|s: i32| 0 <= s < 64 && has_square(a, s) && has_square(b, s);
        let su = s as u64;
        assert(a & b != 0) by (bit_vector)
            requires su < 64 && a & (1u64 << su) != 0 && b & (1u64 << su) != 0;
    }
}

/// Squares of a bitboard all lie on the board.
pub proof fn lemma_member_in_range(a: u64, s: i32)
    requires
        has_square(a, s),
    ensures
        0 <= s < 64,
{
    if !(0 <= s < 64) {
        assert(a & 0u64 == 0u64) by (bit_vector);
    }
}

/// `popcount` counts at most the 64 bits of the word.
pub proof fn lemma_popcount_bound(bitboard: u64)
    ensures
        popcount(bitboard) <= 64,
{
    vstd::arithmetic::power2::lemma2_to64();
    vstd::arithmetic::power2::lemma2_to64_rest();
    lemma_popcount_width(bitboard, 64);
}

proof fn lemma_popcount_width(bitboard: u64, w: nat)
    requires
        bitboard < vstd::arithmetic::power2::pow2(w),
    ensures
        popcount(bitboard) <= w,
    decreases w,
{
    if bitboard == 0 {
    } else {
        if w == 0 {
            vstd::arithmetic::power2::lemma2_to64();
        } else {
            vstd::arithmetic::power2::lemma_pow2_unfold(w);
            lemma_popcount_width(bitboard / 2, (w - 1) as nat);
        }
    }
}

/// Clearing the lowest set bit lowers `popcount` by one.
pub proof fn lemma_popcount_drop_lsb(bitboard: u64)
    requires
        bitboard != 0,
    ensures
        popcount(drop_lsb(bitboard)) == popcount(bitboard) - 1,
        drop_lsb(bitboard) < bitboard,
    decreases bitboard,
{
    let bb = bitboard;
    if bb % 2 == 1 {
        let b1: u64 = (bb - 1) as u64;
        assert(bb & b1 == b1 && bb & b1 < bb) by (bit_vector)
            requires bb % 2 == 1 && b1 + 1 == bb;
        assert(drop_lsb(bb) == b1);
    } else {
        let h = bb / 2;
        assert(h == bb >> 1u64 && h != 0 && drop_lsb(bb) % 2 == 0 && drop_lsb(bb) / 2 == drop_lsb(h)
            && bb & bb.wrapping_sub(1) < bb) by (bit_vector)
            requires bb != 0 && bb % 2 == 0 && h == bb / 2;
        lemma_popcount_drop_lsb(h);
    }
}

/// The lowest set bit, as the single square `lsb_index` names.
pub proof fn lemma_lsb_is_trailing_zeros(bitboard: u64)
    requires
        bitboard != 0,
    ensures
        u64_trailing_zeros(bitboard) < 64,
        lsb_bb(bitboard) == square_bb(u64_trailing_zeros(bitboard) as i32),
        has_square(bitboard, u64_trailing_zeros(bitboard) as i32),
        drop_lsb(bitboard) == bitboard & !square_bb(u64_trailing_zeros(bitboard) as i32),
    decreases bitboard,
{
    let bb = bitboard;
    vstd::std_specs::bits::axiom_u64_trailing_zeros(bb);
    let t = u64_trailing_zeros(bb) as u64;
    let z: u64 = (64 - t) as u64;
    assert(bb << z == 0);
    assert((bb & 0u64.wrapping_sub(bb) == 1u64 << t) && bb & (1u64 << t) != 0
        && bb & bb.wrapping_sub(1) == bb & !(1u64 << t)) by (bit_vector)
        requires t < 64 && t + z == 64 && (bb >> t) & 1u64 == 1u64 && bb << z == 0;
}

/// Union is commutative and associative, with the empty bitboard as its
/// unit; intersection swallows repeats and the empty bitboard.
pub proof fn lemma_or_basics()
    by (bit_vector)
    ensures
        forall|x: u64| #![trigger x | 0u64] x | 0u64 == x && 0u64 | x == x,
        forall|a: u64, b: u64, c: u64| #[trigger] ((a | b) | c) == a | (b | c),
        forall|a: u64, b: u64| #[trigger] (a | b) == b | a,
        forall|a: u64, b: u64| #[trigger] ((a & b) & b) == a & b,
        forall|x: u64| #![trigger x & 0u64] x & 0u64 == 0u64 && 0u64 & x == 0u64,
{
}

/// Intersecting a bitboard with itself changes nothing.
pub proof fn lemma_and_self(x: u64)
    ensures
        x & x == x,
{
    assert(x & x == x) by (bit_vector);
}

/// A union holds at most as many squares as its parts together.
pub proof fn lemma_popcount_or_le(a: u64, b: u64)
    ensures
        popcount(a | b) <= popcount(a) + popcount(b),
    decreases a + b,
{
    if a == 0 {
        assert(0u64 | b == b) by (bit_vector);
    } else if b == 0 {
        assert(a | 0u64 == a) by (bit_vector);
    } else {
        assert((a | b) != 0 && ((a | b) % 2) <= a % 2 + b % 2 && (a | b) / 2 == (a / 2) | (b / 2))
            by (bit_vector)
            requires a != 0 && b != 0;
        lemma_popcount_or_le(a / 2, b / 2);
    }
}

/// A single-square bitboard holds one square.
pub proof fn lemma_popcount_single(s: u64)
    requires
        s < 64,
    ensures
        popcount(1u64 << s) == 1,
    decreases s,
{
    if s == 0 {
        assert(1u64 << 0u64 == 1u64) by (bit_vector);
        assert(popcount(0u64) == 0);
        assert(popcount(1u64) == 1);
    } else {
        let s1: u64 = (s - 1) as u64;
        assert((1u64 << s) % 2 == 0 && (1u64 << s) / 2 == 1u64 << s1 && (1u64 << s) != 0)
            by (bit_vector)
            requires 0 < s < 64 && s1 + 1 == s;
        lemma_popcount_single(s1);
    }
}

/// Returns the bitboard holding exactly `square`; the empty bitboard when
/// `square` lies off the board (in particular for the `NO_SQUARE` sentinel).
pub fn bitboard_from_square(square: i32) -> (r: u64)
    ensures
        r == square_bb(square),
{
    if 0 <= square && square < 64 {
        1u64 << (square as u64)
    } else {
        0u64
    }
}

/// Whether `square` is set in `bitboard`.
pub fn get_bit(bitboard: u64, square: i32) -> (r: bool)
    ensures
        r == has_square(bitboard, square),
{
    bitboard & bitboard_from_square(square) != 0
}

/// `bitboard` with `square` added.
pub fn set_bit(bitboard: u64, square: i32) -> (r: u64)
    ensures
        r == (bitboard | square_bb(square)),
{
    bitboard | bitboard_from_square(square)
}

/// `bitboard` with `square` flipped.
pub fn toggle_bit(bitboard: u64, square: i32) -> (r: u64)
    ensures
        r == (bitboard ^ square_bb(square)),
{
    bitboard ^ bitboard_from_square(square)
}

/// `bitboard` with `square` removed.
pub fn pop_bit(bitboard: u64, square: i32) -> (r: u64)
    ensures
        r == (bitboard & !square_bb(square)),
{
    bitboard & !bitboard_from_square(square)
}

/// Whether the two bitboards share at least one square.
pub fn bits_collide(bitboard_a: u64, bitboard_b: u64) -> (r: bool)
    ensures
        r == (bitboard_a & bitboard_b != 0),
{
    bitboard_a & bitboard_b != 0
}

/// The number of set bits.
pub fn bit_count(bitboard: u64) -> (r: u32)
    ensures
        r == popcount(bitboard),
{
    let mut rest = bitboard;
    let mut count: u32 = 0;
    proof {
        lemma_popcount_bound(bitboard);
    }
    while rest != 0
        invariant
            count + popcount(rest) == popcount(bitboard),
            popcount(bitboard) <= 64,
        decreases rest,
    {
        proof {
            lemma_popcount_drop_lsb(rest);
        }
        rest = rest & rest.wrapping_sub(1);
        count = count + 1;
    }
    count
}

/// The lowest set bit as a bitboard (0 when `bitboard` is empty).
pub fn lsb(bitboard: u64) -> (r: u64)
    ensures
        r == lsb_bb(bitboard),
{
    bitboard & 0u64.wrapping_sub(bitboard)
}

/// The index of the lowest set bit; 64 when `bitboard` is empty.
pub fn lsb_index(bitboard: u64) -> (r: u32)
    ensures
        r == u64_trailing_zeros(bitboard),
        bitboard != 0 ==> r < 64 && square_bb(r as i32) == lsb_bb(bitboard) && has_square(
            bitboard,
            r as i32,
        ),
{
    proof {
        if bitboard != 0 {
            lemma_lsb_is_trailing_zeros(bitboard);
        }
    }
    bitboard.trailing_zeros()
}

/// The union of the single-square bitboards of a list of squares.
pub open spec fn blocker_bb(squares: Seq<i32>) -> u64
    decreases squares.len(),
{
    if squares.len() == 0 {
        0u64
    } else {
        blocker_bb(squares.drop_last()) | square_bb(squares.last())
    }
}

/// Builds the bitboard holding every listed square.
pub fn make_blocker(squares: Vec<i32>) -> (r: u64)
    ensures
        r == blocker_bb(squares@),
{
    let mut result: u64 = 0;
    let mut i: usize = 0;
    while i < squares.len()
        invariant
            i <= squares.len(),
            result == blocker_bb(squares@.take(i as int)),
        decreases squares.len() - i,
    {
        proof {
            assert(squares@.take(i + 1int).drop_last() =~= squares@.take(i as int));
        }
        result = result | bitboard_from_square(squares[i]);
        i = i + 1;
    }
    proof {
        assert(squares@.take(squares@.len() as int) =~= squares@);
    }
    result
}

/// Returns `NOT_A_FILE`: bit `s` is set exactly when square `s` is not on file a.
pub fn not_a_file() -> (r: u64)
    ensures
        r == NOT_A_FILE,
{
    NOT_A_FILE
}

/// Returns `NOT_H_FILE`: bit `s` is set exactly when square `s` is not on file h.
pub fn not_h_file() -> (r: u64)
    ensures
        r == NOT_H_FILE,
{
    NOT_H_FILE
}

/// Returns `NOT_AB_FILE`: bit `s` is set exactly when square `s` is on neither file a nor b.
pub fn not_ab_file() -> (r: u64)
    ensures
        r == NOT_AB_FILE,
{
    NOT_AB_FILE
}

/// Returns `NOT_GH_FILE`: bit `s` is set exactly when square `s` is on neither file g nor h.
pub fn not_gh_file() -> (r: u64)
    ensures
        r == NOT_GH_FILE,
{
    NOT_GH_FILE
}

/// The file-mask constants hold the squares their names say: membership is
/// decided by the square's file alone.
pub proof fn lemma_file_masks(s: i32)
    requires
        0 <= s < 64,
    ensures
        has_square(NOT_A_FILE, s) <==> s % 8 != 0,
        has_square(NOT_H_FILE, s) <==> s % 8 != 7,
        has_square(NOT_AB_FILE, s) <==> s % 8 >= 2,
        has_square(NOT_GH_FILE, s) <==> s % 8 <= 5,
{
    let su = s as u64;
    assert((0xFEFE_FEFE_FEFE_FEFEu64 & (1u64 << su) != 0) == (su % 8 != 0)
        && (0x7F7F_7F7F_7F7F_7F7Fu64 & (1u64 << su) != 0) == (su % 8 != 7)
        && (0xFCFC_FCFC_FCFC_FCFCu64 & (1u64 << su) != 0) == (su % 8 >= 2)
        && (0x3F3F_3F3F_3F3F_3F3Fu64 & (1u64 << su) != 0) == (su % 8 <= 5)) by (bit_vector)
        requires su < 64;
}

} // verus!
