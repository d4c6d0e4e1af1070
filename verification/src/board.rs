//! Board state: twelve piece bitboards, three derived occupancies,
//! side to move, en-passant square and castling rights.

use vstd::prelude::*;
use vstd::string::StringSliceAdditionalSpecFns;
use crate::bitboard::square_bb;
use crate::bitboard::has_square;
use crate::bitboard::bitboard_from_square;
use crate::bitboard::get_bit;
use crate::move_generator::Move;
use crate::move_generator::move_src;
use crate::move_generator::move_dst;
use crate::move_generator::move_piece;
use crate::move_generator::move_promotion;
use crate::move_generator::move_is_capture;
use crate::move_generator::move_is_double_push;
use crate::move_generator::move_is_en_passant;
use crate::move_generator::move_is_castling;
use crate::move_generator::move_is_promotion;

verus! {

/// Piece kinds, in their fixed index order 0..=5.
#[derive(Clone, Copy, PartialEq, Eq, Structural, Debug)]
pub enum Piece {
    Pawn,
    Knight,
    Bishop,
    Rook,
    Queen,
    King,
}

/// A piece of a given colour; the index order matches `piece + 6 * side`.
#[derive(Clone, Copy, PartialEq, Eq, Structural, Debug)]
pub enum SidedPiece {
    WhitePawn,
    WhiteKnight,
    WhiteBishop,
    WhiteRook,
    WhiteQueen,
    WhiteKing,
    BlackPawn,
    BlackKnight,
    BlackBishop,
    BlackRook,
    BlackQueen,
    BlackKing,
}

/// A side of the game. `Both` serves only as an index into the occupancy
/// triple, never as a colour.
#[derive(Clone, Copy, PartialEq, Eq, Structural, Debug)]
pub enum Side {
    White,
    Black,
    Both,
}

/// The four castling rights; each owns one bit of the rights mask.
#[derive(Clone, Copy, PartialEq, Eq, Structural, Debug)]
pub enum Castling {
    WhiteKing,
    WhiteQueen,
    BlackKing,
    BlackQueen,
}

/// The index a piece kind occupies among 0..=5.
pub open spec fn piece_idx(piece: Piece) -> int {
    match piece {
        Piece::Pawn => 0,
        Piece::Knight => 1,
        Piece::Bishop => 2,
        Piece::Rook => 3,
        Piece::Queen => 4,
        Piece::King => 5,
    }
}

/// The piece kind of an index; any index outside 0..=5 falls back to `Pawn`.
pub open spec fn piece_of_idx(idx: int) -> Piece {
    if idx == 1 {
        Piece::Knight
    } else if idx == 2 {
        Piece::Bishop
    } else if idx == 3 {
        Piece::Rook
    } else if idx == 4 {
        Piece::Queen
    } else if idx == 5 {
        Piece::King
    } else {
        Piece::Pawn
    }
}

/// The index a side occupies in the occupancy triple.
pub open spec fn side_idx(side: Side) -> int {
    match side {
        Side::White => 0,
        Side::Black => 1,
        Side::Both => 2,
    }
}

/// The index of a coloured piece in the twelve piece bitboards.
pub open spec fn sided_piece_idx(piece: Piece, side: Side) -> int {
    piece_idx(piece) + 6 * side_idx(side)
}

/// Exec mirror of `piece_idx`.
pub fn piece_index(piece: Piece) -> (r: usize)
    ensures
        r == piece_idx(piece),
{
    match piece {
        Piece::Pawn => 0,
        Piece::Knight => 1,
        Piece::Bishop => 2,
        Piece::Rook => 3,
        Piece::Queen => 4,
        Piece::King => 5,
    }
}

/// Exec mirror of `piece_of_idx`: the piece kind a move word's nibble names,
/// with `Pawn` for any value that names no piece.
pub fn piece_from_index(idx: i32) -> (r: Piece)
    ensures
        r == piece_of_idx(idx as int),
{
    if idx == 1 {
        Piece::Knight
    } else if idx == 2 {
        Piece::Bishop
    } else if idx == 3 {
        Piece::Rook
    } else if idx == 4 {
        Piece::Queen
    } else if idx == 5 {
        Piece::King
    } else {
        Piece::Pawn
    }
}

/// Exec mirror of `side_idx`.
pub fn side_index(side: Side) -> (r: usize)
    ensures
        r == side_idx(side),
{
    match side {
        Side::White => 0,
        Side::Black => 1,
        Side::Both => 2,
    }
}

/// The side whose pieces the given side attacks.
pub open spec fn opponent_of(side: Side) -> Side {
    match side {
        Side::White => Side::Black,
        Side::Black => Side::White,
        Side::Both => Side::Both,
    }
}

/// The opposing colour; `Both` is not a colour and is refused.
pub fn opponent_side(side: Side) -> (r: Side)
    requires
        side != Side::Both,
    ensures
        r == opponent_of(side),
{
    match side {
        Side::White => Side::Black,
        Side::Black => Side::White,
        Side::Both => Side::White,
    }
}

/// The bit the given castling right owns in the rights mask.
pub fn castling_mask(castling: Castling) -> (r: u8)
    ensures
        castling == Castling::WhiteKing ==> r == 1,
        castling == Castling::WhiteQueen ==> r == 2,
        castling == Castling::BlackKing ==> r == 4,
        castling == Castling::BlackQueen ==> r == 8,
{
    match castling {
        Castling::WhiteKing => 1,
        Castling::WhiteQueen => 2,
        Castling::BlackKing => 4,
        Castling::BlackQueen => 8,
    }
}

/// The sided piece an ASCII letter names in a FEN placement field,
/// or `None` when the byte names no piece.
pub fn piece_of_ascii(byte: u8) -> (r: Option<SidedPiece>)
    ensures
        r == spec_piece_of_ascii(byte),
{
    match byte {
        80u8 => Some(SidedPiece::WhitePawn),
        78u8 => Some(SidedPiece::WhiteKnight),
        66u8 => Some(SidedPiece::WhiteBishop),
        82u8 => Some(SidedPiece::WhiteRook),
        81u8 => Some(SidedPiece::WhiteQueen),
        75u8 => Some(SidedPiece::WhiteKing),
        112u8 => Some(SidedPiece::BlackPawn),
        110u8 => Some(SidedPiece::BlackKnight),
        98u8 => Some(SidedPiece::BlackBishop),
        114u8 => Some(SidedPiece::BlackRook),
        113u8 => Some(SidedPiece::BlackQueen),
        107u8 => Some(SidedPiece::BlackKing),
        _ => None,
    }
}

/// The FEN letter map: upper-case `PNBRQK` are White, lower-case Black.
pub open spec fn spec_piece_of_ascii(byte: u8) -> Option<SidedPiece> {
    match byte {
        80u8 => Some(SidedPiece::WhitePawn),
        78u8 => Some(SidedPiece::WhiteKnight),
        66u8 => Some(SidedPiece::WhiteBishop),
        82u8 => Some(SidedPiece::WhiteRook),
        81u8 => Some(SidedPiece::WhiteQueen),
        75u8 => Some(SidedPiece::WhiteKing),
        112u8 => Some(SidedPiece::BlackPawn),
        110u8 => Some(SidedPiece::BlackKnight),
        98u8 => Some(SidedPiece::BlackBishop),
        114u8 => Some(SidedPiece::BlackRook),
        113u8 => Some(SidedPiece::BlackQueen),
        107u8 => Some(SidedPiece::BlackKing),
        _ => None,
    }
}

/// The index of a sided piece in the twelve piece bitboards.
pub open spec fn spec_sided_index(sp: SidedPiece) -> int {
    match sp {
        SidedPiece::WhitePawn => 0,
        SidedPiece::WhiteKnight => 1,
        SidedPiece::WhiteBishop => 2,
        SidedPiece::WhiteRook => 3,
        SidedPiece::WhiteQueen => 4,
        SidedPiece::WhiteKing => 5,
        SidedPiece::BlackPawn => 6,
        SidedPiece::BlackKnight => 7,
        SidedPiece::BlackBishop => 8,
        SidedPiece::BlackRook => 9,
        SidedPiece::BlackQueen => 10,
        SidedPiece::BlackKing => 11,
    }
}

/// Exec mirror of `spec_sided_index`.
pub fn sided_index(sp: SidedPiece) -> (r: usize)
    ensures
        r == spec_sided_index(sp),
{
    match sp {
        SidedPiece::WhitePawn => 0,
        SidedPiece::WhiteKnight => 1,
        SidedPiece::WhiteBishop => 2,
        SidedPiece::WhiteRook => 3,
        SidedPiece::WhiteQueen => 4,
        SidedPiece::WhiteKing => 5,
        SidedPiece::BlackPawn => 6,
        SidedPiece::BlackKnight => 7,
        SidedPiece::BlackBishop => 8,
        SidedPiece::BlackRook => 9,
        SidedPiece::BlackQueen => 10,
        SidedPiece::BlackKing => 11,
    }
}


/// A chess position.
#[derive(Clone, Copy, Debug)]
pub struct Board {
    /// One bitboard per sided piece kind; White pieces occupy indices 0..=5,
    /// Black pieces 6..=11, in `Piece` order.
    pub pieces: [u64; 12],
    /// Occupancy sets, indexed by `Side`: White, Black, and their union.
    pub occupancies: [u64; 3],
    /// The colour to move next (never `Both`).
    pub side_to_move: Side,
    /// The square a double push just crossed, or `NO_SQUARE`.
    pub en_passant_square: i32,
    /// Bit mask of the castling rights still available (see `Castling`).
    pub castling_rights: u8,
}

/// The mathematical model of a position: the twelve piece sets, the three
/// occupancy sets, and the scalar state.
#[verifier::ext_equal]
pub ghost struct BoardModel {
    pub pieces: Seq<u64>,
    pub occupancies: Seq<u64>,
    pub side_to_move: Side,
    pub en_passant_square: int,
    pub castling_rights: u8,
}

impl View for Board {
    type V = BoardModel;

    open spec fn view(&self) -> BoardModel {
        BoardModel {
            pieces: self.pieces@,
            occupancies: self.occupancies@,
            side_to_move: self.side_to_move,
            en_passant_square: self.en_passant_square as int,
            castling_rights: self.castling_rights,
        }
    }
}

/// The union of six consecutive piece bitboards (one side's pieces).
pub open spec fn occ6(pieces: Seq<u64>, base: int) -> u64 {
    pieces[base] | pieces[base + 1] | pieces[base + 2] | pieces[base + 3] | pieces[base + 4]
        | pieces[base + 5]
}

/// The union of the White piece bitboards.
pub open spec fn white_occ(pieces: Seq<u64>) -> u64 {
    occ6(pieces, 0)
}

/// The union of the Black piece bitboards.
pub open spec fn black_occ(pieces: Seq<u64>) -> u64 {
    occ6(pieces, 6)
}

/// No two piece bitboards share a square.
pub open spec fn pieces_disjoint(pieces: Seq<u64>) -> bool {
    forall|i: int, j: int| 0 <= i < j < 12 ==> pieces[i] & pieces[j] == 0
}

/// No pawn stands on the top or bottom rank.
pub open spec fn pawns_off_back_ranks(pieces: Seq<u64>) -> bool {
    &&& pieces[0] & 0xFF == 0
    &&& pieces[0] & 0xFF00_0000_0000_0000 == 0
    &&& pieces[6] & 0xFF == 0
    &&& pieces[6] & 0xFF00_0000_0000_0000 == 0
}

/// Each castling right still held has its king and its rook on their home
/// squares.
pub open spec fn castling_rights_coherent(pieces: Seq<u64>, rights: u8) -> bool {
    &&& (rights & 1 != 0 ==> has_square(pieces[5], 60) && has_square(pieces[3], 63))
    &&& (rights & 2 != 0 ==> has_square(pieces[5], 60) && has_square(pieces[3], 56))
    &&& (rights & 4 != 0 ==> has_square(pieces[11], 4) && has_square(pieces[9], 7))
    &&& (rights & 8 != 0 ==> has_square(pieces[11], 4) && has_square(pieces[9], 0))
}

/// An open en-passant square is coherent with the position: it lies on the
/// rank the side to move captures onto, stands empty, and the enemy pawn
/// that just double-pushed stands directly behind it.
pub open spec fn en_passant_coherent(
    pieces: Seq<u64>,
    occ_both: u64,
    side_to_move: Side,
    ep: int,
) -> bool {
    ||| ep == -1
    ||| (16 <= ep < 24 && side_to_move == Side::White && has_square(pieces[6], (ep + 8) as i32)
        && !has_square(occ_both, ep as i32))
    ||| (40 <= ep < 48 && side_to_move == Side::Black && has_square(pieces[0], (ep - 8) as i32)
        && !has_square(occ_both, ep as i32))
}

impl BoardModel {
    /// Position well-formedness: twelve pairwise-disjoint piece sets, the
    /// three occupancies exactly their unions, a colour to move, an
    /// en-passant square that is absent or coherent (empty, on the rank the
    /// side to move captures onto, with the passed enemy pawn behind it),
    /// no pawn on the top or bottom rank, and every held castling right
    /// backed by its king and rook on their home squares. A king count is
    /// deliberately not required: the kingless empty board is a valid
    /// position here, and every king-reading operation guards the empty
    /// bitboard.
    pub open spec fn wf(self) -> bool {
        &&& self.pieces.len() == 12
        &&& self.occupancies.len() == 3
        &&& pieces_disjoint(self.pieces)
        &&& self.occupancies[0] == white_occ(self.pieces)
        &&& self.occupancies[1] == black_occ(self.pieces)
        &&& self.occupancies[2] == self.occupancies[0] | self.occupancies[1]
        &&& self.side_to_move != Side::Both
        &&& en_passant_coherent(
            self.pieces,
            self.occupancies[2],
            self.side_to_move,
            self.en_passant_square,
        )
        &&& pawns_off_back_ranks(self.pieces)
        &&& castling_rights_coherent(self.pieces, self.castling_rights)
    }
}

/// The square of the pawn an en-passant capture removes: one rank behind
/// the landing square, from the mover's point of view.
pub open spec fn ep_victim_square(side: Side, dst: i32) -> int {
    if side == Side::White {
        dst + 8
    } else {
        dst - 8
    }
}

/// The structural shape of a castling move: the king on its home square
/// steps two files towards its rook, the rook stands on its corner, and the
/// squares between king and rook destination are empty.
pub open spec fn castling_shape(m: BoardModel, side: Side, src: i32, dst: i32) -> bool {
    if side == Side::White {
        src == 60 && ((dst == 62 && has_square(m.pieces[3], 63) && !has_square(
            m.occupancies[2],
            61,
        ) && !has_square(m.occupancies[2], 62)) || (dst == 58 && has_square(m.pieces[3], 56)
            && !has_square(m.occupancies[2], 57) && !has_square(m.occupancies[2], 58)
            && !has_square(m.occupancies[2], 59)))
    } else if side == Side::Black {
        src == 4 && ((dst == 6 && has_square(m.pieces[9], 7) && !has_square(m.occupancies[2], 5)
            && !has_square(m.occupancies[2], 6)) || (dst == 2 && has_square(m.pieces[9], 0)
            && !has_square(m.occupancies[2], 1) && !has_square(m.occupancies[2], 2) && !has_square(
            m.occupancies[2],
            3,
        )))
    } else {
        false
    }
}

/// A move word that is coherent on the given position: the moving side's
/// piece stands on the source, the destination does not hold an own piece,
/// each flag is truthful (a capture lands on an enemy piece, a quiet move
/// on an empty square, a double push starts from the start rank, an
/// en-passant capture lands on the en-passant square beside an enemy pawn,
/// a castling move has its castling shape, a promotion names a piece).
pub open spec fn move_ok(m: BoardModel, mv: i32) -> bool {
    let src = move_src(mv);
    let dst = move_dst(mv);
    let piece = move_piece(mv);
    let side = m.side_to_move;
    let opp = opponent_of(side);
    &&& side != Side::Both
    &&& 0 <= src < 64
    &&& 0 <= dst < 64
    &&& has_square(m.pieces[sided_piece_idx(piece, side)], src)
    &&& !has_square(m.occupancies[side_idx(side)], dst)
    &&& (move_is_capture(mv) && !move_is_en_passant(mv) ==> has_square(
        m.occupancies[side_idx(opp)],
        dst,
    ))
    &&& (!move_is_capture(mv) ==> !has_square(m.occupancies[2], dst))
    &&& (move_is_en_passant(mv) ==> move_piece(mv) == Piece::Pawn && !move_is_capture(mv)
        && !move_is_double_push(mv) && !move_is_castling(mv) && !move_is_promotion(mv) && dst
        == m.en_passant_square && has_square(
        m.pieces[sided_piece_idx(Piece::Pawn, opp)],
        ep_victim_square(side, dst) as i32,
    ))
    &&& (move_is_double_push(mv) ==> move_piece(mv) == Piece::Pawn && !move_is_capture(mv)
        && !move_is_en_passant(mv) && !move_is_castling(mv) && !move_is_promotion(mv) && (side
        == Side::White ==> 48 <= src < 56 && dst == src - 16 && !has_square(
        m.occupancies[2],
        (src - 8) as i32,
    )) && (side == Side::Black ==> 8 <= src < 16 && dst == src + 16 && !has_square(
        m.occupancies[2],
        (src + 8) as i32,
    )))
    &&& (move_is_castling(mv) ==> move_piece(mv) == Piece::King && !move_is_capture(mv)
        && !move_is_en_passant(mv) && !move_is_double_push(mv) && !move_is_promotion(mv)
        && castling_shape(m, side, src, dst))
    &&& (move_is_promotion(mv) ==> move_piece(mv) == Piece::Pawn && !move_is_en_passant(mv)
        && !move_is_double_push(mv) && !move_is_castling(mv) && (move_promotion(mv)
        == Piece::Knight || move_promotion(mv) == Piece::Bishop || move_promotion(mv)
        == Piece::Rook || move_promotion(mv) == Piece::Queen))
    &&& (move_piece(mv) == Piece::Pawn && !move_is_promotion(mv) && !move_is_en_passant(mv)
        && !move_is_double_push(mv) && !move_is_castling(mv) ==> 8 <= dst < 56)
}

/// The index of the enemy piece bitboard holding `dst` (the lowest-indexed
/// one; the enemy king slot when none does, which a coherent capture rules
/// out).
pub open spec fn victim_index(pieces: Seq<u64>, opp: Side, dst: i32) -> int {
    let base = 6 * side_idx(opp);
    if has_square(pieces[base], dst) {
        base
    } else if has_square(pieces[base + 1], dst) {
        base + 1
    } else if has_square(pieces[base + 2], dst) {
        base + 2
    } else if has_square(pieces[base + 3], dst) {
        base + 3
    } else if has_square(pieces[base + 4], dst) {
        base + 4
    } else {
        base + 5
    }
}

/// The castling-right bits a move touching `square` takes away: both of a
/// colour's rights for its king square, one for each rook corner.
pub open spec fn castle_rights_mask(square: i32) -> u8 {
    if square == 60 {
        3u8
    } else if square == 63 {
        1u8
    } else if square == 56 {
        2u8
    } else if square == 4 {
        12u8
    } else if square == 7 {
        4u8
    } else if square == 0 {
        8u8
    } else {
        0u8
    }
}

/// Exec mirror of `castle_rights_mask`.
pub fn castling_update_mask(square: i32) -> (r: u8)
    ensures
        r == castle_rights_mask(square),
{
    if square == 60 {
        3u8
    } else if square == 63 {
        1u8
    } else if square == 56 {
        2u8
    } else if square == 4 {
        12u8
    } else if square == 7 {
        4u8
    } else if square == 0 {
        8u8
    } else {
        0u8
    }
}

/// The position a move word turns `m` into: the mover's bit travels from
/// source to destination; a promotion swaps the arrived pawn for the named
/// piece; a capture clears the enemy piece on the destination (an
/// en-passant capture clears the pawn behind it instead); castling moves
/// the rook across its king; the occupancies follow in lockstep; the
/// en-passant square is set by a double push and cleared otherwise; the
/// castling rights lose the bits of every touched home square; the turn
/// passes to the opponent.
pub open spec fn apply_move_spec(m: BoardModel, mv: i32) -> BoardModel {
    let src = move_src(mv);
    let dst = move_dst(mv);
    let piece = move_piece(mv);
    let side = m.side_to_move;
    let opp = opponent_of(side);
    let oi = side_idx(side);
    let xi = side_idx(opp);
    let mi = sided_piece_idx(piece, side);
    let sbb = square_bb(src);
    let dbb = square_bb(dst);
    let pieces1 = m.pieces.update(mi, (m.pieces[mi] & !sbb) | dbb);
    let pieces2 = if move_is_promotion(mv) {
        let pi = sided_piece_idx(move_promotion(mv), side);
        let cleared = pieces1.update(mi, pieces1[mi] & !dbb);
        cleared.update(pi, cleared[pi] | dbb)
    } else {
        pieces1
    };
    let plain_capture = move_is_capture(mv) && !move_is_en_passant(mv);
    let vi = victim_index(m.pieces, opp, dst);
    let pieces3 = if plain_capture {
        pieces2.update(vi, pieces2[vi] & !dbb)
    } else {
        pieces2
    };
    let vbb = square_bb(ep_victim_square(side, dst) as i32);
    let pieces4 = if move_is_en_passant(mv) {
        pieces3.update(
            sided_piece_idx(Piece::Pawn, opp),
            pieces3[sided_piece_idx(Piece::Pawn, opp)] & !vbb,
        )
    } else {
        pieces3
    };
    let rs = if dst == src + 2 {
        (src + 3) as i32
    } else {
        (src - 4) as i32
    };
    let rd = if dst == src + 2 {
        (src + 1) as i32
    } else {
        (src - 1) as i32
    };
    let rsbb = square_bb(rs);
    let rdbb = square_bb(rd);
    let ri = sided_piece_idx(Piece::Rook, side);
    let pieces5 = if move_is_castling(mv) {
        pieces4.update(ri, (pieces4[ri] & !rsbb) | rdbb)
    } else {
        pieces4
    };
    let white = white_occ(pieces5);
    let black = black_occ(pieces5);
    let occs = seq![white, black, white | black];
    let ep = if move_is_double_push(mv) {
        if side == Side::White {
            dst + 8
        } else {
            dst - 8
        }
    } else {
        -1
    };
    let rights = m.castling_rights & !castle_rights_mask(src) & !castle_rights_mask(dst);
    BoardModel {
        pieces: pieces5,
        occupancies: occs,
        side_to_move: opp,
        en_passant_square: ep,
        castling_rights: rights,
    }
}

/// A single square of a bitboard is a subset of it.
pub proof fn lemma_single_sub(a: u64, s: i32)
    requires
        has_square(a, s),
    ensures
        a & square_bb(s) == square_bb(s),
{
    crate::bitboard::lemma_member_in_range(a, s);
    let i = s as u64;
    assert(a & (1u64 << i) != 0 ==> a & (1u64 << i) == (1u64 << i)) by (bit_vector)
        requires i < 64;
}

/// A subset of one of two disjoint bitboards misses the other.
pub proof fn lemma_disjoint_sub(x: u64, y: u64, sb: u64)
    by (bit_vector)
    requires
        x & y == 0 || y & x == 0,
        x & sb == sb,
    ensures
        y & sb == 0,
        sb & y == 0,
{
}

/// Two distinct squares occupy different bits.
proof fn lemma_distinct_bits(s: i32, t: i32)
    requires
        s != t,
    ensures
        square_bb(s) & square_bb(t) == 0,
{
    if 0 <= s < 64 && 0 <= t < 64 {
        let i = s as u64;
        let j = t as u64;
        assert((1u64 << i) & (1u64 << j) == 0) by (bit_vector)
            requires i < 64 && j < 64 && i != j;
    } else {
        let a = square_bb(s);
        let b = square_bb(t);
        assert(a == 0 || b == 0);
        assert(a & 0u64 == 0 && 0u64 & b == 0) by (bit_vector);
    }
}

/// An empty intersection with a union splits over its parts, and a
/// nonempty one lands in one of them.
pub proof fn lemma_union_misses()
    by (bit_vector)
    ensures
        forall|x: u64, y: u64, d: u64| #[trigger] ((x | y) & d) == 0 ==> x & d == 0 && y & d == 0,
        forall|x: u64, y: u64, d: u64|
            ((x | y) & d) != 0 && x & d == 0 ==> #[trigger] ((x | y) & d) == (y & d),
        forall|x: u64, y: u64, d: u64| x & d == 0 && y & d == 0 ==> #[trigger] ((x | y) & d) == 0,
        forall|x: u64, y: u64, d: u64| d & x == 0 && d & y == 0 ==> #[trigger] (d & (x | y)) == 0,
{
}

/// How the piece-set edits of a move keep disjoint sets disjoint: moving a
/// bit into a free square, clearing a bit, or swapping a pawn for its
/// promotion piece never makes two disjoint bitboards collide.
proof fn lemma_disjoint_moves()
    by (bit_vector)
    ensures
        forall|a: u64, b: u64| #[trigger] (a & b) == b & a,
        forall|x: u64, y: u64, s: u64, d: u64|
            x & y == 0 && y & d == 0 ==> #[trigger] (((x & !s) | d) & y) == 0,
        forall|x: u64, v: u64, s: u64, d: u64| x & v == 0 ==> #[trigger] ((((x & !s) | d)) & (v
            & !d)) == 0,
        forall|v: u64, y: u64, d: u64| v & y == 0 ==> #[trigger] ((v & !d) & y) == 0,
        forall|q: u64, y: u64, d: u64| q & y == 0 && y & d == 0 ==> #[trigger] ((q | d) & y) == 0,
        forall|q: u64, x: u64, s: u64, d: u64| q & x == 0 ==> #[trigger] ((q | d) & ((x & !s)
            & !d)) == 0,
        forall|q: u64, v: u64, d: u64| q & v == 0 ==> #[trigger] ((q | d) & (v & !d)) == 0,
        forall|x: u64, v: u64, s: u64, d: u64| x & v == 0 ==> #[trigger] (((x & !s) & !d) & (v
            & !d)) == 0,
        forall|k: u64, r: u64, s: u64, rs: u64, d: u64, rd: u64|
            k & r == 0 && r & d == 0 && k & rd == 0 && d & rd == 0 ==> #[trigger] ((((k & !s) | d))
                & (((r & !rs) | rd))) == 0,
        forall|x: u64, p: u64, s: u64, d: u64, vb: u64|
            x & p == 0 && p & d == 0 ==> #[trigger] ((((x & !s) | d)) & (p & !vb)) == 0,
        forall|x: u64, s: u64, d: u64, y: u64| x & y == 0 ==> #[trigger] (((((x & !s) | d) & !d))
            & y) == 0,
{
}

/// Every piece set of one side misses what its side's occupancy misses.
proof fn lemma_occ_miss(p: Seq<u64>, base: int, bb: u64, j: int)
    requires
        p.len() == 12,
        base == 0 || base == 6,
        occ6(p, base) & bb == 0,
        base <= j < base + 6,
    ensures
        p[j] & bb == 0,
{
    lemma_union_misses();
    assert((p[base] | p[base + 1] | p[base + 2] | p[base + 3] | p[base + 4]) & bb == 0);
    assert((p[base] | p[base + 1] | p[base + 2] | p[base + 3]) & bb == 0);
    assert((p[base] | p[base + 1] | p[base + 2]) & bb == 0);
    assert((p[base] | p[base + 1]) & bb == 0);
}

/// A square missed by all six of a side's piece sets is missed by the
/// side's occupancy.
proof fn lemma_occ6_join(p: Seq<u64>, base: int, bb: u64)
    requires
        p.len() == 12,
        base == 0 || base == 6,
        forall|j: int| base <= j < base + 6 ==> p[j] & bb == 0,
    ensures
        occ6(p, base) & bb == 0,
{
    lemma_union_misses();
    assert((p[base] | p[base + 1]) & bb == 0);
    assert((p[base] | p[base + 1] | p[base + 2]) & bb == 0);
    assert((p[base] | p[base + 1] | p[base + 2] | p[base + 3]) & bb == 0);
    assert((p[base] | p[base + 1] | p[base + 2] | p[base + 3] | p[base + 4]) & bb == 0);
}

/// The two sides' occupancies never share a square: each is the union of
/// six piece sets, all twelve pairwise disjoint.
pub proof fn lemma_sides_disjoint(m: BoardModel)
    requires
        m.wf(),
    ensures
        white_occ(m.pieces) & black_occ(m.pieces) == 0,
{
    lemma_union_misses();
    let p = m.pieces;
    let black = black_occ(p);
    assert(p[0] & black == 0 && p[1] & black == 0 && p[2] & black == 0 && p[3] & black == 0 && p[4]
        & black == 0 && p[5] & black == 0) by {
        assert(p[0] & (p[6] | p[7]) == 0);
        assert(p[1] & (p[6] | p[7]) == 0);
        assert(p[2] & (p[6] | p[7]) == 0);
        assert(p[3] & (p[6] | p[7]) == 0);
        assert(p[4] & (p[6] | p[7]) == 0);
        assert(p[5] & (p[6] | p[7]) == 0);
        assert(p[0] & (p[6] | p[7] | p[8]) == 0);
        assert(p[1] & (p[6] | p[7] | p[8]) == 0);
        assert(p[2] & (p[6] | p[7] | p[8]) == 0);
        assert(p[3] & (p[6] | p[7] | p[8]) == 0);
        assert(p[4] & (p[6] | p[7] | p[8]) == 0);
        assert(p[5] & (p[6] | p[7] | p[8]) == 0);
        assert(p[0] & (p[6] | p[7] | p[8] | p[9]) == 0);
        assert(p[1] & (p[6] | p[7] | p[8] | p[9]) == 0);
        assert(p[2] & (p[6] | p[7] | p[8] | p[9]) == 0);
        assert(p[3] & (p[6] | p[7] | p[8] | p[9]) == 0);
        assert(p[4] & (p[6] | p[7] | p[8] | p[9]) == 0);
        assert(p[5] & (p[6] | p[7] | p[8] | p[9]) == 0);
        assert(p[0] & (p[6] | p[7] | p[8] | p[9] | p[10]) == 0);
        assert(p[1] & (p[6] | p[7] | p[8] | p[9] | p[10]) == 0);
        assert(p[2] & (p[6] | p[7] | p[8] | p[9] | p[10]) == 0);
        assert(p[3] & (p[6] | p[7] | p[8] | p[9] | p[10]) == 0);
        assert(p[4] & (p[6] | p[7] | p[8] | p[9] | p[10]) == 0);
        assert(p[5] & (p[6] | p[7] | p[8] | p[9] | p[10]) == 0);
    }
    assert((p[0] | p[1]) & black == 0);
    assert((p[0] | p[1] | p[2]) & black == 0);
    assert((p[0] | p[1] | p[2] | p[3]) & black == 0);
    assert((p[0] | p[1] | p[2] | p[3] | p[4]) & black == 0);
}

/// The u8 bit facts the castling-rights mask lives by: a bit that survives
/// the two mask removals was set before and belongs to neither mask, and
/// which concrete masks carry which bits.
proof fn lemma_rights_bits()
    by (bit_vector)
    ensures
        forall|r: u8, a: u8, b: u8, c: u8|
            #![trigger (((r & !a) & !b) & c)]
            (c == 1 || c == 2 || c == 4 || c == 8) && (((r & !a) & !b) & c) != 0 ==> (r & c) != 0
                && (a & c) == 0 && (b & c) == 0,
        (3u8 & 1u8) != 0 && (1u8 & 1u8) != 0 && (2u8 & 1u8) == 0 && (12u8 & 1u8) == 0 && (4u8
            & 1u8) == 0 && (8u8 & 1u8) == 0 && (0u8 & 1u8) == 0,
        (3u8 & 2u8) != 0 && (2u8 & 2u8) != 0 && (1u8 & 2u8) == 0 && (12u8 & 2u8) == 0 && (4u8
            & 2u8) == 0 && (8u8 & 2u8) == 0 && (0u8 & 2u8) == 0,
        (12u8 & 4u8) != 0 && (4u8 & 4u8) != 0 && (3u8 & 4u8) == 0 && (1u8 & 4u8) == 0 && (2u8
            & 4u8) == 0 && (8u8 & 4u8) == 0 && (0u8 & 4u8) == 0,
        (12u8 & 8u8) != 0 && (8u8 & 8u8) != 0 && (3u8 & 8u8) == 0 && (1u8 & 8u8) == 0 && (2u8
            & 8u8) == 0 && (4u8 & 8u8) == 0 && (0u8 & 8u8) == 0,
{
}

/// A piece that stands on a home square neither end of the move touches is
/// still there after the move (the castling rook shuffle concerns the other
/// colour's corner whenever its right survives).
proof fn lemma_home_kept(m: BoardModel, mv: i32, idx: int, home: i32)
    requires
        m.wf(),
        move_ok(m, mv),
        idx == 3 || idx == 5 || idx == 9 || idx == 11,
        0 <= home < 64,
        has_square(m.pieces[idx], home),
        move_src(mv) != home,
        move_dst(mv) != home,
        move_is_castling(mv) ==> idx != sided_piece_idx(Piece::Rook, m.side_to_move),
    ensures
        has_square(apply_move_spec(m, mv).pieces[idx], home),
{
    broadcast use
        crate::bitboard::lemma_or_member,
        crate::bitboard::lemma_diff_member,
        crate::bitboard::lemma_square_bb_member;

    let src = move_src(mv);
    let dst = move_dst(mv);
    assert(!has_square(square_bb(src), home) && !has_square(square_bb(dst), home));
}

/// A coherent move takes a well-formed position to a well-formed position:
/// the twelve piece sets stay pairwise disjoint, the occupancies stay their
/// unions, and the en-passant square stays valid. With the move drawn from
/// the generator this is the reachability invariant of the board.
#[verifier::rlimit(60)]
pub proof fn lemma_apply_move_wf(m: BoardModel, mv: i32)
    requires
        m.wf(),
        move_ok(m, mv),
    ensures
        apply_move_spec(m, mv).wf(),
{
    lemma_union_misses();
    lemma_disjoint_moves();
    let src = move_src(mv);
    let dst = move_dst(mv);
    let piece = move_piece(mv);
    let side = m.side_to_move;
    let opp = opponent_of(side);
    let oi = side_idx(side);
    let xi = side_idx(opp);
    let ob = 6 * oi;
    let xb = 6 * xi;
    let mi = sided_piece_idx(piece, side);
    let sbb = square_bb(src);
    let dbb = square_bb(dst);
    let post = apply_move_spec(m, mv);

    lemma_single_sub(m.pieces[mi], src);
    assert forall|j: int| 0 <= j < 12 && j != mi implies m.pieces[j] & sbb == 0 by {
        lemma_disjoint_sub(m.pieces[mi], m.pieces[j], sbb);
    }

    // the moving side's pieces miss the destination
    assert(occ6(m.pieces, ob) & dbb == 0) by {
        assert(m.occupancies[side_idx(side)] & square_bb(dst) == 0);
    }
    assert forall|j: int| ob <= j < ob + 6 implies m.pieces[j] & dbb == 0 by {
        lemma_occ_miss(m.pieces, ob, dbb, j);
    }

    if move_is_capture(mv) && !move_is_en_passant(mv) {
        // the victim holds the destination; the other enemy pieces miss it
        let vi = victim_index(m.pieces, opp, dst);
        assert(m.occupancies[side_idx(opp)] & square_bb(dst) != 0);
        assert(has_square(m.pieces[vi], dst) && xb <= vi < xb + 6) by {
            assert((m.pieces[xb] | m.pieces[xb + 1]) & dbb != 0 ==> has_square(m.pieces[xb], dst)
                || has_square(m.pieces[xb + 1], dst));
            assert((m.pieces[xb] | m.pieces[xb + 1] | m.pieces[xb + 2]) & dbb != 0 ==> (m.pieces[xb]
                | m.pieces[xb + 1]) & dbb != 0 || has_square(m.pieces[xb + 2], dst));
            assert((m.pieces[xb] | m.pieces[xb + 1] | m.pieces[xb + 2] | m.pieces[xb + 3]) & dbb
                != 0 ==> (m.pieces[xb] | m.pieces[xb + 1] | m.pieces[xb + 2]) & dbb != 0
                || has_square(m.pieces[xb + 3], dst));
            assert((m.pieces[xb] | m.pieces[xb + 1] | m.pieces[xb + 2] | m.pieces[xb + 3]
                | m.pieces[xb + 4]) & dbb != 0 ==> (m.pieces[xb] | m.pieces[xb + 1] | m.pieces[xb
                + 2] | m.pieces[xb + 3]) & dbb != 0 || has_square(m.pieces[xb + 4], dst));
            assert(occ6(m.pieces, xb) & dbb != 0);
        }
        lemma_single_sub(m.pieces[vi], dst);
        assert forall|j: int| 0 <= j < 12 && j != vi implies m.pieces[j] & dbb == 0 by {
            if ob <= j < ob + 6 {
            } else {
                lemma_disjoint_sub(m.pieces[vi], m.pieces[j], dbb);
            }
        }
    } else {
        // quiet, double push, en passant, castling: the destination is empty
        assert(occ6(m.pieces, xb) & dbb == 0) by {
            assert(m.occupancies[2] & square_bb(dst) == 0);
            assert((white_occ(m.pieces) | black_occ(m.pieces)) & dbb == 0);
        }
        assert forall|j: int| 0 <= j < 12 implies m.pieces[j] & dbb == 0 by {
            if ob <= j < ob + 6 {
            } else {
                lemma_occ_miss(m.pieces, xb, dbb, j);
            }
        }
    }

    if move_is_en_passant(mv) {
        let vsq = ep_victim_square(side, dst) as i32;
        let vbb = square_bb(vsq);
        let pwn = sided_piece_idx(Piece::Pawn, opp);
        lemma_single_sub(m.pieces[pwn], vsq);
        assert forall|j: int| 0 <= j < 12 && j != pwn implies m.pieces[j] & vbb == 0 by {
            lemma_disjoint_sub(m.pieces[pwn], m.pieces[j], vbb);
        }
        lemma_distinct_bits(dst, vsq);
    }

    if move_is_castling(mv) {
        let rs: i32 = if dst == src + 2 {
            (src + 3) as i32
        } else {
            (src - 4) as i32
        };
        let rd: i32 = if dst == src + 2 {
            (src + 1) as i32
        } else {
            (src - 1) as i32
        };
        let rsbb = square_bb(rs);
        let rdbb = square_bb(rd);
        let ri = sided_piece_idx(Piece::Rook, side);
        lemma_single_sub(m.pieces[ri], rs);
        assert forall|j: int| 0 <= j < 12 && j != ri implies m.pieces[j] & rsbb == 0 by {
            lemma_disjoint_sub(m.pieces[ri], m.pieces[j], rsbb);
        }
        // the rook's landing square is empty
        assert(occ6(m.pieces, 0) & rdbb == 0 && occ6(m.pieces, 6) & rdbb == 0) by {
            assert(m.occupancies[2] & square_bb(rd) == 0);
            assert((white_occ(m.pieces) | black_occ(m.pieces)) & rdbb == 0);
        }
        assert forall|j: int| 0 <= j < 12 implies m.pieces[j] & rdbb == 0 by {
            if j < 6 {
                lemma_occ_miss(m.pieces, 0, rdbb, j);
            } else {
                lemma_occ_miss(m.pieces, 6, rdbb, j);
            }
        }
        lemma_distinct_bits(dst, rd);
    }

    assert forall|i: int, j: int| 0 <= i < 12 && 0 <= j < 12 && i != j implies post.pieces[i]
        & post.pieces[j] == 0 by {
        assert(m.pieces[i] & m.pieces[j] == 0);
    }

    // a double push leaves a coherent en-passant square: the crossed square
    // was empty, stays empty (only src and dst changed, and both differ from
    // it), and the pushed pawn now stands behind it
    if move_is_double_push(mv) {
        broadcast use crate::bitboard::lemma_or_member, crate::bitboard::lemma_square_bb_member;

        let mid: i32 = if side == Side::White {
            (src - 8) as i32
        } else {
            (src + 8) as i32
        };
        let midbb = square_bb(mid);
        assert(occ6(m.pieces, 0) & midbb == 0 && occ6(m.pieces, 6) & midbb == 0) by {
            assert(m.occupancies[2] & square_bb(mid) == 0);
            assert((white_occ(m.pieces) | black_occ(m.pieces)) & midbb == 0);
        }
        assert forall|j: int| 0 <= j < 12 implies m.pieces[j] & midbb == 0 by {
            if j < 6 {
                lemma_occ_miss(m.pieces, 0, midbb, j);
            } else {
                lemma_occ_miss(m.pieces, 6, midbb, j);
            }
        }
        lemma_distinct_bits(dst, mid);
        assert forall|j: int| 0 <= j < 12 implies post.pieces[j] & midbb == 0 by {
            assert(m.pieces[j] & midbb == 0);
        }
        lemma_occ6_join(post.pieces, 0, midbb);
        lemma_occ6_join(post.pieces, 6, midbb);
        assert((white_occ(post.pieces) | black_occ(post.pieces)) & midbb == 0);
        assert(has_square(post.pieces[sided_piece_idx(Piece::Pawn, side)], dst));
    }

    // pawns stay off the top and bottom ranks: a promotion swaps the pawn
    // out, and every other pawn move lands strictly between them
    let br: u64 = 0xFF;
    let tr: u64 = 0xFF00_0000_0000_0000;
    if piece == Piece::Pawn && !move_is_promotion(mv) {
        assert(8 <= dst < 56);
        crate::bitboard::lemma_back_rank_square(dst);
    }
    assert forall|j: int| j == 0 || j == 6 implies post.pieces[j] & br == 0 && post.pieces[j] & tr
        == 0 by {
        assert(m.pieces[j] & br == 0 && m.pieces[j] & tr == 0);
    }

    // each surviving castling right keeps its king and rook at home: the
    // move touched neither of their squares, or the right would be gone
    lemma_rights_bits();
    let ra = post.castling_rights;
    assert(ra == m.castling_rights & !castle_rights_mask(src) & !castle_rights_mask(dst));
    if ra & 1 != 0 {
        assert(castle_rights_mask(src) & 1 == 0 && castle_rights_mask(dst) & 1 == 0
            && m.castling_rights & 1 != 0);
        assert(src != 60 && src != 63 && dst != 60 && dst != 63);
        lemma_home_kept(m, mv, 5, 60);
        lemma_home_kept(m, mv, 3, 63);
    }
    if ra & 2 != 0 {
        assert(castle_rights_mask(src) & 2 == 0 && castle_rights_mask(dst) & 2 == 0
            && m.castling_rights & 2 != 0);
        assert(src != 60 && src != 56 && dst != 60 && dst != 56);
        lemma_home_kept(m, mv, 5, 60);
        lemma_home_kept(m, mv, 3, 56);
    }
    if ra & 4 != 0 {
        assert(castle_rights_mask(src) & 4 == 0 && castle_rights_mask(dst) & 4 == 0
            && m.castling_rights & 4 != 0);
        assert(src != 4 && src != 7 && dst != 4 && dst != 7);
        lemma_home_kept(m, mv, 11, 4);
        lemma_home_kept(m, mv, 9, 7);
    }
    if ra & 8 != 0 {
        assert(castle_rights_mask(src) & 8 == 0 && castle_rights_mask(dst) & 8 == 0
            && m.castling_rights & 8 != 0);
        assert(src != 4 && src != 0 && dst != 4 && dst != 0);
        lemma_home_kept(m, mv, 11, 4);
        lemma_home_kept(m, mv, 9, 0);
    }
}

/// At most one piece stands on any square: on a well-formed position, a
/// square held by one piece bitboard is held by no other.
pub proof fn lemma_one_piece_per_square(m: BoardModel, s: i32, i: int, j: int)
    requires
        m.wf(),
        0 <= i < 12,
        0 <= j < 12,
        i != j,
        has_square(m.pieces[i], s),
    ensures
        !has_square(m.pieces[j], s),
{
    lemma_single_sub(m.pieces[i], s);
    lemma_disjoint_sub(m.pieces[i], m.pieces[j], square_bb(s));
}

/// One step of the placement-field parser: a digit skips files, a slash
/// opens the next rank, a piece letter sets the square's bit in that
/// piece's bitboard, and a space ends the field. Any overflow or unknown
/// letter fails the parse.
pub open spec fn parse_placement(bytes: Seq<u8>, i: int, rank: int, file: int, pieces: Seq<u64>) -> Option<
    (Seq<u64>, int),
>
    decreases bytes.len() - i,
    when 0 <= i <= bytes.len()
{
    if i >= bytes.len() {
        None
    } else if bytes[i] == 32 {
        Some((pieces, i + 1))
    } else if bytes[i] == 47 {
        if rank >= 7 {
            None
        } else {
            parse_placement(bytes, i + 1, rank + 1, 0, pieces)
        }
    } else if 49 <= bytes[i] <= 56 {
        if file + (bytes[i] - 48) > 8 {
            None
        } else {
            parse_placement(bytes, i + 1, rank, file + (bytes[i] - 48), pieces)
        }
    } else {
        match spec_piece_of_ascii(bytes[i]) {
            Some(sp) => {
                if file > 7 {
                    None
                } else {
                    parse_placement(
                        bytes,
                        i + 1,
                        rank,
                        file + 1,
                        pieces.update(
                            spec_sided_index(sp),
                            pieces[spec_sided_index(sp)] | square_bb((rank * 8 + file) as i32),
                        ),
                    )
                }
            },
            None => None,
        }
    }
}

/// The side-to-move field: one letter followed by a space.
pub open spec fn parse_side(bytes: Seq<u8>, i: int) -> Option<(Side, int)> {
    if i >= bytes.len() {
        None
    } else if !(i + 1 < bytes.len() && bytes[i + 1] == 32) {
        None
    } else if bytes[i] == 119 {
        Some((Side::White, i + 2))
    } else if bytes[i] == 98 {
        Some((Side::Black, i + 2))
    } else {
        None
    }
}

/// The letters of the castling field, accumulated into the rights mask
/// until the closing space.
pub open spec fn parse_castling(bytes: Seq<u8>, i: int, rights: u8) -> Option<(u8, int)>
    decreases bytes.len() - i,
    when 0 <= i <= bytes.len()
{
    if i >= bytes.len() {
        None
    } else if bytes[i] == 32 {
        Some((rights, i + 1))
    } else if bytes[i] == 75 {
        parse_castling(bytes, i + 1, rights | 1)
    } else if bytes[i] == 81 {
        parse_castling(bytes, i + 1, rights | 2)
    } else if bytes[i] == 107 {
        parse_castling(bytes, i + 1, rights | 4)
    } else if bytes[i] == 113 {
        parse_castling(bytes, i + 1, rights | 8)
    } else {
        None
    }
}

/// The castling field: a dash for no rights, else its letters; a space
/// closes the field either way.
pub open spec fn parse_castling_field(bytes: Seq<u8>, i: int) -> Option<(u8, int)> {
    if i >= bytes.len() {
        None
    } else if bytes[i] == 45 {
        if i + 1 < bytes.len() && bytes[i + 1] == 32 {
            Some((0u8, i + 2))
        } else {
            None
        }
    } else {
        parse_castling(bytes, i, 0)
    }
}

/// The en-passant field: a dash for no square, else an algebraic cell that
/// must lie on the third or sixth rank.
pub open spec fn parse_en_passant(bytes: Seq<u8>, i: int) -> Option<int> {
    if i >= bytes.len() {
        None
    } else if bytes[i] == 45 {
        Some(-1)
    } else if i + 1 >= bytes.len() {
        None
    } else {
        let sq = crate::squares::spec_square_of_cell(bytes[i], bytes[i + 1]);
        if (16 <= sq < 24) || (40 <= sq < 48) {
            Some(sq)
        } else {
            None
        }
    }
}

/// What `Board::from_fen` yields on a FEN record's bytes: the parsed
/// placement, side, castling rights and en-passant square assembled into a
/// model whose occupancies are the unions of the parsed piece sets — or
/// nothing, when a field is malformed or two pieces land on one square.
pub open spec fn parse_fen(bytes: Seq<u8>) -> Option<BoardModel> {
    match parse_placement(bytes, 0, 0, 0, seq![0u64; 12]) {
        None => None,
        Some((pieces, i)) => match parse_side(bytes, i) {
            None => None,
            Some((side_to_move, j)) => match parse_castling_field(bytes, j) {
                None => None,
                Some((castling_rights, k)) => match parse_en_passant(bytes, k) {
                    None => None,
                    Some(en_passant_square) => {
                        if !pieces_disjoint(pieces) || !en_passant_coherent(
                            pieces,
                            white_occ(pieces) | black_occ(pieces),
                            side_to_move,
                            en_passant_square,
                        ) || !pawns_off_back_ranks(pieces) || !castling_rights_coherent(
                            pieces,
                            castling_rights,
                        ) {
                            None
                        } else {
                            Some(
                                BoardModel {
                                    pieces,
                                    occupancies: seq![
                                        white_occ(pieces),
                                        black_occ(pieces),
                                        white_occ(pieces) | black_occ(pieces),
                                    ],
                                    side_to_move,
                                    en_passant_square,
                                    castling_rights,
                                },
                            )
                        }
                    },
                },
            },
        },
    }
}

impl Board {
    /// Board well-formedness, stated over the model.
    pub open spec fn wf(self) -> bool {
        self@.wf()
    }

    /// The bitboard of one coloured piece kind.
    pub fn bitboard(&self, piece: Piece, side: Side) -> (r: u64)
        requires
            side != Side::Both,
        ensures
            r == self@.pieces[sided_piece_idx(piece, side)],
    {
        let index = piece_index(piece) + side_index(side) * 6;
        self.pieces[index]
    }

    /// Replaces the bitboard of one coloured piece kind; the occupancies are
    /// the caller's to recompute.
    pub fn set_bitboard(&mut self, piece: Piece, side: Side, value: u64)
        requires
            side != Side::Both,
        ensures
            final(self)@.pieces == old(self)@.pieces.update(sided_piece_idx(piece, side), value),
            final(self)@.occupancies == old(self)@.occupancies,
            final(self)@.side_to_move == old(self)@.side_to_move,
            final(self)@.en_passant_square == old(self)@.en_passant_square,
            final(self)@.castling_rights == old(self)@.castling_rights,
    {
        let index = piece_index(piece) + side_index(side) * 6;
        self.pieces[index] = value;
    }

    /// The union of the piece bitboards a side owns (`Both` unites all
    /// twelve); used at construction and after every state mutation.
    pub fn get_occupancy(pieces: &[u64; 12], side: Side) -> (r: u64)
        ensures
            side == Side::White ==> r == white_occ(pieces@),
            side == Side::Black ==> r == black_occ(pieces@),
            side == Side::Both ==> r == (white_occ(pieces@) | black_occ(pieces@)),
    {
        let white = pieces[0] | pieces[1] | pieces[2] | pieces[3] | pieces[4] | pieces[5];
        let black = pieces[6] | pieces[7] | pieces[8] | pieces[9] | pieces[10] | pieces[11];
        match side {
            Side::White => white,
            Side::Black => black,
            Side::Both => white | black,
        }
    }

    /// The index of the enemy piece bitboard holding `dst`.
    fn find_victim(&self, opp: Side, dst: i32) -> (r: usize)
        requires
            opp != Side::Both,
        ensures
            r == victim_index(self@.pieces, opp, dst),
            r < 12,
    {
        let base = side_index(opp) * 6;
        if get_bit(self.pieces[base], dst) {
            base
        } else if get_bit(self.pieces[base + 1], dst) {
            base + 1
        } else if get_bit(self.pieces[base + 2], dst) {
            base + 2
        } else if get_bit(self.pieces[base + 3], dst) {
            base + 3
        } else if get_bit(self.pieces[base + 4], dst) {
            base + 4
        } else {
            base + 5
        }
    }

    /// Builds a board from a FEN record: the piece placement (rank 8
    /// first), the side to move, the castling rights and the en-passant
    /// target; the trailing clock fields are ignored. Returns `None` when a
    /// field is malformed, a rank overflows, a letter names no piece, two
    /// pieces land on one square, a pawn stands on the top or bottom rank,
    /// a castling right lacks its king or rook at home, or the en-passant
    /// square is off its rank, occupied, or missing the passed pawn behind
    /// it — every returned board is well-formed.
    pub fn from_fen(fen: &str) -> (r: Option<Board>)
        ensures
            r matches Some(b) ==> parse_fen(fen.spec_bytes()) == Some(b@) && b@.wf(),
            r is None ==> parse_fen(fen.spec_bytes()) is None,
    {
        let bytes = fen.as_bytes();
        let n = bytes.len();
        let mut pieces = [0u64; 12];
        let mut i: usize = 0;
        let mut rank: i32 = 0;
        let mut file: i32 = 0;
        proof {
            assert(pieces@ =~= seq![0u64; 12]);
        }

        while i < n && bytes[i] != 32
            invariant
                0 <= rank <= 7,
                0 <= file <= 8,
                i <= n,
                n == bytes@.len(),
                bytes@ == fen.spec_bytes(),
                parse_placement(bytes@, 0, 0, 0, seq![0u64; 12]) == parse_placement(
                    bytes@,
                    i as int,
                    rank as int,
                    file as int,
                    pieces@,
                ),
            decreases n - i,
        {
            let c = bytes[i];
            if c == 47 {
                if rank >= 7 {
                    return None;
                }
                rank = rank + 1;
                file = 0;
            } else if 49 <= c && c <= 56 {
                file = file + (c - 48) as i32;
                if file > 8 {
                    return None;
                }
            } else {
                match piece_of_ascii(c) {
                    Some(sp) => {
                        if file > 7 {
                            return None;
                        }
                        let idx = sided_index(sp);
                        let square = rank * 8 + file;
                        pieces[idx] = pieces[idx] | bitboard_from_square(square);
                        file = file + 1;
                    },
                    None => {
                        return None;
                    },
                }
            }
            i = i + 1;
        }
        if i >= n {
            return None;
        }
        let ghost parsed_pieces = pieces@;
        proof {
            assert(parse_placement(bytes@, 0, 0, 0, seq![0u64; 12]) == Some(
                (pieces@, i + 1 as int),
            ));
        }
        i = i + 1;
        let ghost side_field = i as int;

        // side to move
        if i >= n {
            return None;
        }
        let side_to_move = if bytes[i] == 119 {
            Side::White
        } else if bytes[i] == 98 {
            Side::Black
        } else {
            return None;
        };
        i = i + 1;
        if i >= n || bytes[i] != 32 {
            return None;
        }
        i = i + 1;
        proof {
            assert(parse_side(bytes@, side_field) == Some((side_to_move, i as int)));
        }

        // castling rights
        let ghost castle_start = i as int;
        let mut castling_rights: u8 = 0;
        if i >= n {
            return None;
        }
        if bytes[i] == 45 {
            i = i + 1;
        } else {
            while i < n && bytes[i] != 32
                invariant
                    i <= n,
                    n == bytes@.len(),
                    bytes@ == fen.spec_bytes(),
                    0 <= castle_start <= i,
                    castle_start < bytes@.len() && bytes@[castle_start] != 45,
                    parse_placement(bytes@, 0, 0, 0, seq![0u64; 12]) == Some(
                        (pieces@, side_field),
                    ),
                    parse_side(bytes@, side_field) == Some((side_to_move, castle_start)),
                    parse_castling(bytes@, castle_start, 0) == parse_castling(
                        bytes@,
                        i as int,
                        castling_rights,
                    ),
                decreases n - i,
            {
                let c = bytes[i];
                if c == 75 {
                    castling_rights = castling_rights | 1;
                } else if c == 81 {
                    castling_rights = castling_rights | 2;
                } else if c == 107 {
                    castling_rights = castling_rights | 4;
                } else if c == 113 {
                    castling_rights = castling_rights | 8;
                } else {
                    return None;
                }
                i = i + 1;
            }
        }
        if i >= n || bytes[i] != 32 {
            return None;
        }
        i = i + 1;
        proof {
            assert(parse_castling_field(bytes@, castle_start) == Some(
                (castling_rights, i as int),
            ));
        }

        // en-passant square
        let ghost ep_field = i as int;
        if i >= n {
            return None;
        }
        let en_passant_square: i32 = if bytes[i] == 45 {
            crate::squares::NO_SQUARE
        } else {
            if i + 1 >= n {
                return None;
            }
            let sq = crate::squares::square_of_cell(bytes[i], bytes[i + 1]);
            if !(16 <= sq && sq < 24) && !(40 <= sq && sq < 48) {
                return None;
            }
            sq
        };
        proof {
            assert(parse_en_passant(bytes@, ep_field) == Some(en_passant_square as int));
        }

        // two pieces may not share a square
        let mut a: usize = 0;
        while a < 12
            invariant
                parse_placement(bytes@, 0, 0, 0, seq![0u64; 12]) == Some((pieces@, side_field)),
                parse_side(bytes@, side_field) == Some((side_to_move, castle_start)),
                parse_castling_field(bytes@, castle_start) == Some((castling_rights, ep_field)),
                parse_en_passant(bytes@, ep_field) == Some(en_passant_square as int),
                bytes@ == fen.spec_bytes(),
                forall|x: int, y: int| 0 <= x < y < 12 && x < a ==> pieces[x] & pieces[y] == 0,
            decreases 12 - a,
        {
            let mut b: usize = a + 1;
            while b < 12
                invariant
                    parse_placement(bytes@, 0, 0, 0, seq![0u64; 12]) == Some(
                        (pieces@, side_field),
                    ),
                    parse_side(bytes@, side_field) == Some((side_to_move, castle_start)),
                    parse_castling_field(bytes@, castle_start) == Some(
                        (castling_rights, ep_field),
                    ),
                    parse_en_passant(bytes@, ep_field) == Some(en_passant_square as int),
                    bytes@ == fen.spec_bytes(),
                    a < 12,
                    a + 1 <= b,
                    forall|x: int, y: int| 0 <= x < y < 12 && x < a ==> pieces[x] & pieces[y] == 0,
                    forall|y: int| a < y < b ==> pieces[a as int] & pieces[y] == 0,
                decreases 12 - b,
            {
                if pieces[a] & pieces[b] != 0 {
                    proof {
                        assert(!pieces_disjoint(pieces@)) by {
                            assert(pieces@[a as int] & pieces@[b as int] != 0);
                        }
                    }
                    return None;
                }
                b = b + 1;
            }
            a = a + 1;
        }

        let white = Board::get_occupancy(&pieces, Side::White);
        let black = Board::get_occupancy(&pieces, Side::Black);
        let occupancies = [white, black, white | black];

        // pawns may not stand on the top or bottom rank
        if pieces[0] & 0xFF != 0 || pieces[0] & 0xFF00_0000_0000_0000 != 0 || pieces[6] & 0xFF != 0
            || pieces[6] & 0xFF00_0000_0000_0000 != 0 {
            return None;
        }

        // each held castling right needs its king and rook at home
        if castling_rights & 1 != 0 && !(get_bit(pieces[5], 60) && get_bit(pieces[3], 63)) {
            return None;
        }
        if castling_rights & 2 != 0 && !(get_bit(pieces[5], 60) && get_bit(pieces[3], 56)) {
            return None;
        }
        if castling_rights & 4 != 0 && !(get_bit(pieces[11], 4) && get_bit(pieces[9], 7)) {
            return None;
        }
        if castling_rights & 8 != 0 && !(get_bit(pieces[11], 4) && get_bit(pieces[9], 0)) {
            return None;
        }

        // an open en-passant square must be empty, on the capturing side's
        // target rank, with the passed enemy pawn behind it
        if en_passant_square != crate::squares::NO_SQUARE {
            if en_passant_square < 24 {
                if !(matches!(side_to_move, Side::White) && get_bit(
                    pieces[6],
                    en_passant_square + 8,
                ) && !get_bit(white | black, en_passant_square)) {
                    return None;
                }
            } else {
                if !(matches!(side_to_move, Side::Black) && get_bit(
                    pieces[0],
                    en_passant_square - 8,
                ) && !get_bit(white | black, en_passant_square)) {
                    return None;
                }
            }
        }

        let board = Board { pieces, occupancies, side_to_move, en_passant_square, castling_rights };
        proof {
            assert(board@.occupancies =~= seq![
                white_occ(parsed_pieces),
                black_occ(parsed_pieces),
                white_occ(parsed_pieces) | black_occ(parsed_pieces),
            ]);
            assert(parse_fen(bytes@) == Some(board@));
        }
        Some(board)
    }

    /// Plays one coherent move: carries the mover, removes any captured
    /// piece, moves the castling rook, swaps in the promotion piece, sets or
    /// clears the en-passant square, updates the castling rights, recomputes
    /// the occupancies, and passes the turn. Returns the position as it was
    /// before the move, so the caller can restore it.
    pub fn play_move(&mut self, mv: i32) -> (r: Board)
        requires
            old(self)@.wf(),
            move_ok(old(self)@, mv),
        ensures
            r == *old(self),
            final(self)@ == apply_move_spec(old(self)@, mv),
            final(self)@.wf(),
    {
        let current_state = *self;

        let piece = Move::decode_piece(mv);
        let src_square = Move::decode_src_square(mv);
        let dst_square = Move::decode_dst_square(mv);
        let side = self.side_to_move;
        let opp = opponent_side(side);
        let src_bb = bitboard_from_square(src_square);
        let dst_bb = bitboard_from_square(dst_square);
        let oi = side_index(side);
        let xi = side_index(opp);
        let white_to_move = oi == 0;

        let victim = self.find_victim(opp, dst_square);

        // carry the mover
        let mi = piece_index(piece) + oi * 6;
        self.pieces[mi] = (self.pieces[mi] & !src_bb) | dst_bb;

        // swap an arriving pawn for its promotion piece
        if Move::is_promotion(mv) {
            let pi = piece_index(Move::decode_promotion_piece(mv)) + oi * 6;
            self.pieces[mi] = self.pieces[mi] & !dst_bb;
            self.pieces[pi] = self.pieces[pi] | dst_bb;
        }

        // remove a captured piece
        if Move::is_capture(mv) && !Move::is_en_passant(mv) {
            self.pieces[victim] = self.pieces[victim] & !dst_bb;
        }

        // remove the pawn an en-passant capture passes
        if Move::is_en_passant(mv) {
            let victim_square = if white_to_move {
                dst_square + 8
            } else {
                dst_square - 8
            };
            let victim_bb = bitboard_from_square(victim_square);
            let pawn_idx = xi * 6;
            self.pieces[pawn_idx] = self.pieces[pawn_idx] & !victim_bb;
        }

        // carry the rook across the castling king
        if Move::is_castling(mv) {
            let rook_src = if dst_square == src_square + 2 {
                src_square + 3
            } else {
                src_square - 4
            };
            let rook_dst = if dst_square == src_square + 2 {
                src_square + 1
            } else {
                src_square - 1
            };
            let rook_src_bb = bitboard_from_square(rook_src);
            let rook_dst_bb = bitboard_from_square(rook_dst);
            let ri = piece_index(Piece::Rook) + oi * 6;
            self.pieces[ri] = (self.pieces[ri] & !rook_src_bb) | rook_dst_bb;
        }

        // the occupancies follow the piece sets
        let white = Board::get_occupancy(&self.pieces, Side::White);
        let black = Board::get_occupancy(&self.pieces, Side::Black);
        self.occupancies[0] = white;
        self.occupancies[1] = black;
        self.occupancies[2] = white | black;

        // a double push opens its crossed square to en passant
        if Move::is_double_push(mv) {
            self.en_passant_square = if white_to_move {
                dst_square + 8
            } else {
                dst_square - 8
            };
        } else {
            self.en_passant_square = crate::squares::NO_SQUARE;
        }

        // a touched home square takes its castling rights with it
        self.castling_rights = self.castling_rights & !castling_update_mask(src_square)
            & !castling_update_mask(dst_square);

        self.side_to_move = opp;

        proof {
            assert(self@.pieces =~= apply_move_spec(old(self)@, mv).pieces);
            assert(self@.occupancies =~= apply_move_spec(old(self)@, mv).occupancies);
            assert(self@ =~= apply_move_spec(old(self)@, mv));
            lemma_apply_move_wf(old(self)@, mv);
        }

        current_state
    }
}

} // verus!
