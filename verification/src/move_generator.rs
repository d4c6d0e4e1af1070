//! Move encoding and the move list.
//!
//! A move is packed into the low 24 bits of an `i32`:
//! bits 0-5 the source square, 6-11 the destination square, 12-15 the moving
//! piece, 16-19 the promotion piece (0 when the move promotes nothing), and
//! bits 20-23 the capture, double-push, en-passant and castling flags.

use vstd::prelude::*;
use vstd::std_specs::bits::u64_trailing_zeros;
use crate::board::Piece;
use crate::board::Side;
use crate::board::Board;
use crate::board::BoardModel;
use crate::board::sided_piece_idx;
use crate::board::side_idx;
use crate::board::side_index;
use crate::board::opponent_of;
use crate::board::opponent_side;
use crate::board::move_ok;
use crate::board::ep_victim_square;
use crate::board::apply_move_spec;
use crate::bitboard::has_square;
use crate::bitboard::square_bb;
use crate::bitboard::drop_lsb;
use crate::bitboard::lsb_index;
use crate::bitboard::pop_bit;
use crate::bitboard::get_bit;
use crate::bitboard::bits_collide;
use crate::bitboard::bitboard_from_square;
use crate::bitboard::lemma_popcount_drop_lsb;
use crate::bitboard::lemma_lsb_is_trailing_zeros;
use crate::attacks::Attacks;
use crate::attacks::pawn_attacks_bb;
use crate::attacks::knight_attacks_bb;
use crate::attacks::king_attacks_bb;
use crate::attacks::bishop_rays;
use crate::attacks::rook_rays;
use crate::attacks::bishop_mask_bb;
use crate::attacks::rook_mask_bb;
use crate::attacks::mirror_bb;
use crate::board::piece_idx;
use crate::board::piece_of_idx;
use crate::board::piece_index;
use crate::board::piece_from_index;

verus! {

/// The or of the four flag bits a move carries.
pub open spec fn flag_bits(capture: bool, double_push: bool, en_passant: bool, castling: bool) -> i32 {
    (if capture {
        0x100000i32
    } else {
        0i32
    }) | (if double_push {
        0x200000i32
    } else {
        0i32
    }) | (if en_passant {
        0x400000i32
    } else {
        0i32
    }) | (if castling {
        0x800000i32
    } else {
        0i32
    })
}

/// The packed move word for the given fields. A move that promotes nothing
/// carries `Piece::Pawn` (index 0) in the promotion field.
pub open spec fn pack_move(
    piece: Piece,
    src_square: i32,
    dst_square: i32,
    promotion: Piece,
    capture: bool,
    double_push: bool,
    en_passant: bool,
    castling: bool,
) -> i32 {
    src_square | (dst_square << 6i32) | ((piece_idx(piece) as i32) << 12i32) | ((piece_idx(
        promotion,
    ) as i32) << 16i32) | flag_bits(capture, double_push, en_passant, castling)
}

/// The source square a move word holds.
pub open spec fn move_src(mv: i32) -> i32 {
    mv & 0x3F
}

/// The destination square a move word holds.
pub open spec fn move_dst(mv: i32) -> i32 {
    (mv & 0xFC0) >> 6i32
}

/// The moving piece a move word holds.
pub open spec fn move_piece(mv: i32) -> Piece {
    piece_of_idx(((mv & 0xF000) >> 12i32) as int)
}

/// The promotion piece a move word holds (`Pawn` when none).
pub open spec fn move_promotion(mv: i32) -> Piece {
    piece_of_idx(((mv & 0xF0000) >> 16i32) as int)
}

/// Whether the move promotes: the promotion field names a piece other than
/// a pawn.
pub open spec fn move_is_promotion(mv: i32) -> bool {
    mv & 0xF0000 != 0
}

/// Whether the move captures.
pub open spec fn move_is_capture(mv: i32) -> bool {
    mv & 0x100000 != 0
}

/// Whether the move is a pawn double push.
pub open spec fn move_is_double_push(mv: i32) -> bool {
    mv & 0x200000 != 0
}

/// Whether the move captures en passant.
pub open spec fn move_is_en_passant(mv: i32) -> bool {
    mv & 0x400000 != 0
}

/// Whether the move castles.
pub open spec fn move_is_castling(mv: i32) -> bool {
    mv & 0x800000 != 0
}

/// Or with zero changes no move word, and an empty promotion field shifts
/// to nothing.
broadcast proof fn lemma_or_zero(x: i32)
    ensures
        #![trigger x | 0i32]
        #![trigger 0i32 | x]
        x | 0i32 == x && 0i32 | x == x && 0i32 << 16i32 == 0i32 && 0i32 << 12i32 == 0i32,
{
    assert(x | 0i32 == x && 0i32 | x == x && 0i32 << 16i32 == 0i32 && 0i32 << 12i32 == 0i32)
        by (bit_vector);
}

/// Decoding a packed move returns every field unchanged: the round trip
/// from fields to the 24-bit word and back is the identity.
pub proof fn lemma_move_round_trip(
    piece: Piece,
    src_square: i32,
    dst_square: i32,
    promotion: Piece,
    capture: bool,
    double_push: bool,
    en_passant: bool,
    castling: bool,
)
    requires
        0 <= src_square < 64,
        0 <= dst_square < 64,
    ensures
        move_src(
            pack_move(
                piece,
                src_square,
                dst_square,
                promotion,
                capture,
                double_push,
                en_passant,
                castling,
            ),
        ) == src_square,
        move_dst(
            pack_move(
                piece,
                src_square,
                dst_square,
                promotion,
                capture,
                double_push,
                en_passant,
                castling,
            ),
        ) == dst_square,
        move_piece(
            pack_move(
                piece,
                src_square,
                dst_square,
                promotion,
                capture,
                double_push,
                en_passant,
                castling,
            ),
        ) == piece,
        move_promotion(
            pack_move(
                piece,
                src_square,
                dst_square,
                promotion,
                capture,
                double_push,
                en_passant,
                castling,
            ),
        ) == promotion,
        move_is_capture(
            pack_move(
                piece,
                src_square,
                dst_square,
                promotion,
                capture,
                double_push,
                en_passant,
                castling,
            ),
        ) == capture,
        move_is_double_push(
            pack_move(
                piece,
                src_square,
                dst_square,
                promotion,
                capture,
                double_push,
                en_passant,
                castling,
            ),
        ) == double_push,
        move_is_en_passant(
            pack_move(
                piece,
                src_square,
                dst_square,
                promotion,
                capture,
                double_push,
                en_passant,
                castling,
            ),
        ) == en_passant,
        move_is_castling(
            pack_move(
                piece,
                src_square,
                dst_square,
                promotion,
                capture,
                double_push,
                en_passant,
                castling,
            ),
        ) == castling,
        move_is_promotion(
            pack_move(
                piece,
                src_square,
                dst_square,
                promotion,
                capture,
                double_push,
                en_passant,
                castling,
            ),
        ) == (piece_idx(promotion) != 0),
{
    let pi = piece_idx(piece) as i32;
    let pri = piece_idx(promotion) as i32;
    let mv = pack_move(
        piece,
        src_square,
        dst_square,
        promotion,
        capture,
        double_push,
        en_passant,
        castling,
    );
    let src = src_square;
    let dst = dst_square;
    let fl = flag_bits(capture, double_push, en_passant, castling);
    assert((src | (dst << 6i32) | (pi << 12i32) | (pri << 16i32) | fl) & 0x3F == src && ((src | (
    dst << 6i32) | (pi << 12i32) | (pri << 16i32) | fl) & 0xFC0) >> 6i32 == dst && ((src | (dst
        << 6i32) | (pi << 12i32) | (pri << 16i32) | fl) & 0xF000) >> 12i32 == pi && ((src | (dst
        << 6i32) | (pi << 12i32) | (pri << 16i32) | fl) & 0xF0000) >> 16i32 == pri && (((src | (dst
        << 6i32) | (pi << 12i32) | (pri << 16i32) | fl) & 0xF0000) != 0) == (pri != 0) && (((src | (
    dst << 6i32) | (pi << 12i32) | (pri << 16i32) | fl) & 0x100000) != 0) == capture && (((src | (
    dst << 6i32) | (pi << 12i32) | (pri << 16i32) | fl) & 0x200000) != 0) == double_push && (((src
        | (dst << 6i32) | (pi << 12i32) | (pri << 16i32) | fl) & 0x400000) != 0) == en_passant && ((
    (src | (dst << 6i32) | (pi << 12i32) | (pri << 16i32) | fl) & 0x800000) != 0) == castling)
        by (bit_vector)
        requires
            0 <= src < 64 && 0 <= dst < 64 && 0 <= pi <= 5 && 0 <= pri <= 5 && fl == (if capture {
                0x100000i32
            } else {
                0i32
            }) | (if double_push {
                0x200000i32
            } else {
                0i32
            }) | (if en_passant {
                0x400000i32
            } else {
                0i32
            }) | (if castling {
                0x800000i32
            } else {
                0i32
            }),
    ;
}

/// Namespace for the move-word factories and field accessors.
pub struct Move {}

impl Move {
    /// Packs a quiet move.
    pub fn encode(piece: Piece, src_square: i32, dst_square: i32) -> (r: i32)
        requires
            0 <= src_square < 64,
            0 <= dst_square < 64,
        ensures
            r == pack_move(piece, src_square, dst_square, Piece::Pawn, false, false, false, false),
    {
        broadcast use lemma_or_zero;

        src_square | dst_square << 6i32 | (piece_index(piece) as i32) << 12i32
    }

    /// Packs a capturing move.
    pub fn encode_capture(piece: Piece, src_square: i32, dst_square: i32) -> (r: i32)
        requires
            0 <= src_square < 64,
            0 <= dst_square < 64,
        ensures
            r == pack_move(piece, src_square, dst_square, Piece::Pawn, true, false, false, false),
    {
        broadcast use lemma_or_zero;

        Move::encode(piece, src_square, dst_square) | 0x100000i32
    }

    /// Packs a castling move (the king's two-square step).
    pub fn encode_castling(piece: Piece, src_square: i32, dst_square: i32) -> (r: i32)
        requires
            0 <= src_square < 64,
            0 <= dst_square < 64,
        ensures
            r == pack_move(piece, src_square, dst_square, Piece::Pawn, false, false, false, true),
    {
        broadcast use lemma_or_zero;

        Move::encode(piece, src_square, dst_square) | 0x800000i32
    }

    /// Packs an en-passant capture.
    pub fn encode_en_passant(piece: Piece, src_square: i32, dst_square: i32) -> (r: i32)
        requires
            0 <= src_square < 64,
            0 <= dst_square < 64,
        ensures
            r == pack_move(piece, src_square, dst_square, Piece::Pawn, false, false, true, false),
    {
        broadcast use lemma_or_zero;

        Move::encode(piece, src_square, dst_square) | 0x400000i32
    }

    /// Packs a pawn double push.
    pub fn encode_double_push(piece: Piece, src_square: i32, dst_square: i32) -> (r: i32)
        requires
            0 <= src_square < 64,
            0 <= dst_square < 64,
        ensures
            r == pack_move(piece, src_square, dst_square, Piece::Pawn, false, true, false, false),
    {
        broadcast use lemma_or_zero;

        Move::encode(piece, src_square, dst_square) | 0x200000i32
    }

    /// Packs a promotion to the given piece, optionally capturing. One word
    /// is emitted per promotion choice, so the promotion field always names
    /// the piece the pawn becomes.
    pub fn encode_promotion(
        piece: Piece,
        src_square: i32,
        dst_square: i32,
        promotion: Piece,
        with_capture: bool,
    ) -> (r: i32)
        requires
            0 <= src_square < 64,
            0 <= dst_square < 64,
        ensures
            r == pack_move(
                piece,
                src_square,
                dst_square,
                promotion,
                with_capture,
                false,
                false,
                false,
            ),
    {
        broadcast use lemma_or_zero;

        let mv = src_square | dst_square << 6i32 | (piece_index(piece) as i32) << 12i32 | (
        piece_index(promotion) as i32) << 16i32;
        if with_capture {
            mv | 0x100000i32
        } else {
            mv
        }
    }

    /// The source square of a move word.
    pub fn decode_src_square(mv: i32) -> (r: i32)
        ensures
            r == move_src(mv),
    {
        mv & 0x3F
    }

    /// The destination square of a move word.
    pub fn decode_dst_square(mv: i32) -> (r: i32)
        ensures
            r == move_dst(mv),
    {
        (mv & 0xFC0) >> 6i32
    }

    /// The moving piece of a move word.
    pub fn decode_piece(mv: i32) -> (r: Piece)
        ensures
            r == move_piece(mv),
    {
        piece_from_index((mv & 0xF000) >> 12i32)
    }

    /// The promotion piece of a move word (`Pawn` when the move promotes
    /// nothing).
    pub fn decode_promotion_piece(mv: i32) -> (r: Piece)
        ensures
            r == move_promotion(mv),
    {
        piece_from_index((mv & 0xF0000) >> 16i32)
    }

    /// Whether the move promotes.
    pub fn is_promotion(mv: i32) -> (r: bool)
        ensures
            r == move_is_promotion(mv),
    {
        mv & 0xF0000 != 0
    }

    /// Whether the move captures.
    pub fn is_capture(mv: i32) -> (r: bool)
        ensures
            r == move_is_capture(mv),
    {
        mv & 0x100000 != 0
    }

    /// Whether the move is a pawn double push.
    pub fn is_double_push(mv: i32) -> (r: bool)
        ensures
            r == move_is_double_push(mv),
    {
        mv & 0x200000 != 0
    }

    /// Whether the move captures en passant.
    pub fn is_en_passant(mv: i32) -> (r: bool)
        ensures
            r == move_is_en_passant(mv),
    {
        mv & 0x400000 != 0
    }

    /// Whether the move castles.
    pub fn is_castling(mv: i32) -> (r: bool)
        ensures
            r == move_is_castling(mv),
    {
        mv & 0x800000 != 0
    }
}

/// An ordered list of packed move words.
pub struct Moves {
    moves: Vec<i32>,
}

impl View for Moves {
    type V = Seq<i32>;

    closed spec fn view(&self) -> Seq<i32> {
        self.moves@
    }
}

impl Moves {
    /// An empty move list, with room for any legal position's moves.
    pub fn new() -> (r: Moves)
        ensures
            r@ == Seq::<i32>::empty(),
    {
        Moves { moves: Vec::with_capacity(256) }
    }

    /// Appends one move word.
    pub fn push(&mut self, value: i32)
        ensures
            final(self)@ == old(self)@.push(value),
    {
        self.moves.push(value);
    }

    /// The emitted moves, in emission order.
    pub fn moves(&self) -> (r: &[i32])
        ensures
            r@ == self@,
    {
        self.moves.as_slice()
    }

    /// How many moves the list holds.
    pub fn len(&self) -> (r: usize)
        ensures
            r == self@.len(),
    {
        self.moves.len()
    }
}

} // verus!

verus! {

/// Whether `square` is attacked by `attacking_side` on position `m`: for
/// each piece kind, the attack set from `square` (as that kind) intersects
/// the attacker's pieces of that kind. Leaper and slider attack shapes are
/// symmetric, so this is attack-by-the-side onto the square.
pub open spec fn square_attacked_spec(m: BoardModel, square: i32, attacking_side: Side) -> bool {
    let occ = m.occupancies[2];
    let this_side = opponent_of(attacking_side);
    ||| pawn_attacks_bb(this_side, square) & m.pieces[sided_piece_idx(Piece::Pawn, attacking_side)]
        != 0
    ||| knight_attacks_bb(square) & m.pieces[sided_piece_idx(Piece::Knight, attacking_side)] != 0
    ||| king_attacks_bb(square) & m.pieces[sided_piece_idx(Piece::King, attacking_side)] != 0
    ||| bishop_rays(square, occ & bishop_mask_bb(square)) & m.pieces[sided_piece_idx(
        Piece::Bishop,
        attacking_side,
    )] != 0
    ||| rook_rays(square, occ & rook_mask_bb(square)) & m.pieces[sided_piece_idx(
        Piece::Rook,
        attacking_side,
    )] != 0
    ||| (bishop_rays(square, occ & bishop_mask_bb(square)) | rook_rays(
        square,
        occ & rook_mask_bb(square),
    )) & m.pieces[sided_piece_idx(Piece::Queen, attacking_side)] != 0
}

/// Checks whether `square` is under attack by `attacking_side`. Instead of
/// asking whether any attacker reaches the square, each lookup asks whether
/// the square, as a piece of each kind, reaches an attacker of that kind.
pub fn is_square_attacked(board: &Board, square: i32, attacking_side: Side, attacks: &Attacks) -> (r:
    bool)
    requires
        attacks.wf(),
        0 <= square < 64,
        attacking_side != Side::Both,
    ensures
        r == square_attacked_spec(board@, square, attacking_side),
{
    let occupancy = board.occupancies[2];

    let this_side = opponent_side(attacking_side);

    let as_pawn = attacks.get_pawn_attacks(square, this_side);
    if bits_collide(as_pawn, board.bitboard(Piece::Pawn, attacking_side)) {
        return true;
    }
    let as_knight = attacks.get_knight_attacks(square);
    if bits_collide(as_knight, board.bitboard(Piece::Knight, attacking_side)) {
        return true;
    }
    let as_king = attacks.get_king_attacks(square);
    if bits_collide(as_king, board.bitboard(Piece::King, attacking_side)) {
        return true;
    }
    let as_bishop = attacks.get_bishop_attacks(square, occupancy);
    if bits_collide(as_bishop, board.bitboard(Piece::Bishop, attacking_side)) {
        return true;
    }
    let as_rook = attacks.get_rook_attacks(square, occupancy);
    if bits_collide(as_rook, board.bitboard(Piece::Rook, attacking_side)) {
        return true;
    }
    let as_queen = attacks.get_queen_attacks(square, occupancy);
    if bits_collide(as_queen, board.bitboard(Piece::Queen, attacking_side)) {
        return true;
    }
    false
}

/// The occupancy of the side to move.
pub open spec fn own_occ(m: BoardModel) -> u64 {
    m.occupancies[side_idx(m.side_to_move)]
}

/// The occupancy of the side not to move.
pub open spec fn enemy_occ(m: BoardModel) -> u64 {
    m.occupancies[side_idx(opponent_of(m.side_to_move))]
}

/// What one destination square contributes: a capture on an enemy piece, a
/// quiet move on an empty square, nothing on an own piece.
pub open spec fn capture_or_quiet(piece: Piece, src: i32, dst: i32, my_occ: u64, opp_occ: u64) -> Seq<
    i32,
> {
    if has_square(opp_occ, dst) {
        seq![pack_move(piece, src, dst, Piece::Pawn, true, false, false, false)]
    } else if !has_square(my_occ, dst) {
        seq![pack_move(piece, src, dst, Piece::Pawn, false, false, false, false)]
    } else {
        Seq::empty()
    }
}

#[via_fn]
proof fn drain_targets_decreases(piece: Piece, src: i32, att: u64, my_occ: u64, opp_occ: u64) {
    if att != 0 {
        lemma_popcount_drop_lsb(att);
    }
}

/// The moves one piece emits while its attack set is drained lowest square
/// first.
pub open spec fn drain_targets(piece: Piece, src: i32, att: u64, my_occ: u64, opp_occ: u64) -> Seq<
    i32,
>
    decreases att,
    via drain_targets_decreases
{
    if att == 0 {
        Seq::empty()
    } else {
        capture_or_quiet(piece, src, u64_trailing_zeros(att) as i32, my_occ, opp_occ)
            + drain_targets(piece, src, drop_lsb(att), my_occ, opp_occ)
    }
}

/// The attack set a non-pawn piece reads from the tables.
pub open spec fn attack_set_of(piece: Piece, src: i32, both: u64) -> u64 {
    match piece {
        Piece::Knight => knight_attacks_bb(src),
        Piece::Bishop => bishop_rays(src, both & bishop_mask_bb(src)),
        Piece::Rook => rook_rays(src, both & rook_mask_bb(src)),
        Piece::Queen => bishop_rays(src, both & bishop_mask_bb(src)) | rook_rays(
            src,
            both & rook_mask_bb(src),
        ),
        Piece::King => king_attacks_bb(src),
        Piece::Pawn => 0u64,
    }
}

#[via_fn]
proof fn piece_moves_from_decreases(m: BoardModel, piece: Piece, bb: u64) {
    if bb != 0 {
        lemma_popcount_drop_lsb(bb);
    }
}

/// The moves a piece kind emits while its bitboard is drained lowest square
/// first.
pub open spec fn piece_moves_from(m: BoardModel, piece: Piece, bb: u64) -> Seq<i32>
    decreases bb,
    via piece_moves_from_decreases
{
    if bb == 0 {
        Seq::empty()
    } else {
        let src = u64_trailing_zeros(bb) as i32;
        drain_targets(
            piece,
            src,
            attack_set_of(piece, src, m.occupancies[2]),
            own_occ(m),
            enemy_occ(m),
        ) + piece_moves_from(m, piece, drop_lsb(bb))
    }
}

/// All moves of one piece kind of the side to move.
pub open spec fn piece_moves_seq(m: BoardModel, piece: Piece) -> Seq<i32> {
    piece_moves_from(m, piece, m.pieces[sided_piece_idx(piece, m.side_to_move)])
}

/// One bitboard is a subset of another.
proof fn lemma_subset_member(sub: u64, sup: u64, s: i32)
    requires
        sub & sup == sub,
        has_square(sub, s),
    ensures
        has_square(sup, s),
        drop_lsb(sub) & sup == drop_lsb(sub),
{
    crate::bitboard::lemma_member_in_range(sub, s);
    let i = s as u64;
    assert(sub & (1u64 << i) != 0 ==> sup & (1u64 << i) != 0) by (bit_vector)
        requires sub & sup == sub && i < 64;
    assert((sub & sub.wrapping_sub(1)) & sup == sub & sub.wrapping_sub(1)) by (bit_vector)
        requires sub & sup == sub;
}

/// Every move the drain of one attack set emits is coherent on the board:
/// its source holds the mover, captures land on enemy pieces, quiet moves
/// on empty squares, and no flag is set.
proof fn lemma_drain_targets_ok(m: BoardModel, piece: Piece, src: i32, att: u64)
    requires
        m.wf(),
        piece != Piece::Pawn,
        0 <= src < 64,
        has_square(m.pieces[sided_piece_idx(piece, m.side_to_move)], src),
    ensures
        forall|k: int|
            0 <= k < drain_targets(piece, src, att, own_occ(m), enemy_occ(m)).len() ==> move_ok(
                m,
                drain_targets(piece, src, att, own_occ(m), enemy_occ(m))[k],
            ),
    decreases att,
{
    broadcast use crate::bitboard::lemma_or_member;

    if att != 0 {
        lemma_popcount_drop_lsb(att);
        lemma_lsb_is_trailing_zeros(att);
        crate::board::lemma_sides_disjoint(m);
        let dst = u64_trailing_zeros(att) as i32;
        let head = capture_or_quiet(piece, src, dst, own_occ(m), enemy_occ(m));
        if has_square(enemy_occ(m), dst) {
            lemma_move_round_trip(piece, src, dst, Piece::Pawn, true, false, false, false);
            crate::board::lemma_single_sub(enemy_occ(m), dst);
            crate::board::lemma_disjoint_sub(enemy_occ(m), own_occ(m), square_bb(dst));
            assert(move_ok(m, head[0]));
        } else if !has_square(own_occ(m), dst) {
            lemma_move_round_trip(piece, src, dst, Piece::Pawn, false, false, false, false);
            assert(!has_square(m.occupancies[2], dst)) by {
                assert(has_square(m.occupancies[0] | m.occupancies[1], dst) == (has_square(
                    m.occupancies[0],
                    dst,
                ) || has_square(m.occupancies[1], dst)));
            }
            assert(move_ok(m, head[0]));
        }
        lemma_drain_targets_ok(m, piece, src, drop_lsb(att));
        let tail = drain_targets(piece, src, drop_lsb(att), own_occ(m), enemy_occ(m));
        let s = drain_targets(piece, src, att, own_occ(m), enemy_occ(m));
        assert(s == head + tail);
        assert forall|k: int| 0 <= k < s.len() implies move_ok(m, s[k]) by {
            if k < head.len() {
                assert(s[k] == head[k]);
            } else {
                assert(s[k] == tail[k - head.len()]);
            }
        }
    }
}

/// As `lemma_drain_targets_ok`, for the full drain of one piece kind's
/// bitboard.
proof fn lemma_piece_moves_ok(m: BoardModel, piece: Piece, bb: u64)
    requires
        m.wf(),
        piece != Piece::Pawn,
        bb & m.pieces[sided_piece_idx(piece, m.side_to_move)] == bb,
    ensures
        forall|k: int|
            0 <= k < piece_moves_from(m, piece, bb).len() ==> move_ok(
                m,
                piece_moves_from(m, piece, bb)[k],
            ),
    decreases bb,
{
    if bb != 0 {
        lemma_popcount_drop_lsb(bb);
        lemma_lsb_is_trailing_zeros(bb);
        let src = u64_trailing_zeros(bb) as i32;
        lemma_subset_member(bb, m.pieces[sided_piece_idx(piece, m.side_to_move)], src);
        lemma_drain_targets_ok(m, piece, src, attack_set_of(piece, src, m.occupancies[2]));
        lemma_piece_moves_ok(m, piece, drop_lsb(bb));
        let head = drain_targets(
            piece,
            src,
            attack_set_of(piece, src, m.occupancies[2]),
            own_occ(m),
            enemy_occ(m),
        );
        let tail = piece_moves_from(m, piece, drop_lsb(bb));
        let s = piece_moves_from(m, piece, bb);
        assert(s == head + tail);
        assert forall|k: int| 0 <= k < s.len() implies move_ok(m, s[k]) by {
            if k < head.len() {
                assert(s[k] == head[k]);
            } else {
                assert(s[k] == tail[k - head.len()]);
            }
        }
    }
}

/// Drains one attack set: emits a capture for each enemy-held destination
/// and a quiet move for each empty one, lowest square first.
fn handle_attacks(
    piece: Piece,
    initial_attacks: u64,
    initial_square: i32,
    my_occupancy: u64,
    opponent_occupancy: u64,
    moves: &mut Moves,
)
    requires
        0 <= initial_square < 64,
    ensures
        final(moves)@ == old(moves)@ + drain_targets(
            piece,
            initial_square,
            initial_attacks,
            my_occupancy,
            opponent_occupancy,
        ),
{
    let mut attacks = initial_attacks;
    while attacks != 0
        invariant
            0 <= initial_square < 64,
            old(moves)@ + drain_targets(
                piece,
                initial_square,
                initial_attacks,
                my_occupancy,
                opponent_occupancy,
            ) == moves@ + drain_targets(
                piece,
                initial_square,
                attacks,
                my_occupancy,
                opponent_occupancy,
            ),
        decreases attacks,
    {
        proof {
            lemma_popcount_drop_lsb(attacks);
            lemma_lsb_is_trailing_zeros(attacks);
        }
        let attacked_square = lsb_index(attacks) as i32;
        let ghost prev = attacks;
        let ghost moves_prev = moves@;
        attacks = pop_bit(attacks, attacked_square);

        let attacked_bitboard = bitboard_from_square(attacked_square);

        if bits_collide(opponent_occupancy, attacked_bitboard) {
            moves.push(Move::encode_capture(piece, initial_square, attacked_square));
        } else if !bits_collide(my_occupancy, attacked_bitboard) {
            moves.push(Move::encode(piece, initial_square, attacked_square));
        }
        proof {
            let head = capture_or_quiet(
                piece,
                initial_square,
                attacked_square,
                my_occupancy,
                opponent_occupancy,
            );
            let tail = drain_targets(piece, initial_square, attacks, my_occupancy,
                opponent_occupancy);
            assert(drain_targets(piece, initial_square, prev, my_occupancy, opponent_occupancy)
                == head + tail);
            assert(moves@ =~= moves_prev + head);
            assert((moves_prev + head) + tail =~= moves_prev + (head + tail));
        }
    }
    proof {
        assert(moves@ + drain_targets(
            piece,
            initial_square,
            attacks,
            my_occupancy,
            opponent_occupancy,
        ) =~= moves@);
    }
}

} // verus!

verus! {

/// The pawn rank (top-down index) from which a push promotes.
pub open spec fn promo_rank_of(side: Side) -> int {
    if side == Side::White {
        1
    } else {
        6
    }
}

/// The pawn rank (top-down index) a side's pawns start on.
pub open spec fn start_rank_of(side: Side) -> int {
    if side == Side::White {
        6
    } else {
        1
    }
}

/// A single pawn push's change of square index.
pub open spec fn push_delta(side: Side) -> int {
    if side == Side::White {
        -8
    } else {
        8
    }
}

/// What one pawn contributes by pushing: four promotions from the
/// promotion rank or one quiet push, and a flagged double push from the
/// start rank, all only onto empty squares.
pub open spec fn pawn_push_targets(m: BoardModel, src: i32) -> Seq<i32> {
    let side = m.side_to_move;
    let dst = (src + push_delta(side)) as i32;
    let ddst = (src + 2 * push_delta(side)) as i32;
    if !(0 <= src + push_delta(side) < 64) || has_square(m.occupancies[2], dst) {
        Seq::empty()
    } else {
        (if src / 8 == promo_rank_of(side) {
            seq![
                pack_move(Piece::Pawn, src, dst, Piece::Knight, false, false, false, false),
                pack_move(Piece::Pawn, src, dst, Piece::Bishop, false, false, false, false),
                pack_move(Piece::Pawn, src, dst, Piece::Rook, false, false, false, false),
                pack_move(Piece::Pawn, src, dst, Piece::Queen, false, false, false, false),
            ]
        } else {
            seq![pack_move(Piece::Pawn, src, dst, Piece::Pawn, false, false, false, false)]
        }) + (if src / 8 == start_rank_of(side) && !has_square(m.occupancies[2], ddst) {
            seq![pack_move(Piece::Pawn, src, ddst, Piece::Pawn, false, true, false, false)]
        } else {
            Seq::empty()
        })
    }
}

/// What one pawn-attack destination contributes: a capture (promoting from
/// the promotion rank) on an enemy piece, or an en-passant capture whenever
/// the destination is the open en-passant square (well-formedness puts the
/// passed enemy pawn behind that square).
pub open spec fn pawn_cap_targets(m: BoardModel, src: i32, dst: i32) -> Seq<i32> {
    let side = m.side_to_move;
    if has_square(enemy_occ(m), dst) {
        if src / 8 == promo_rank_of(side) {
            seq![
                pack_move(Piece::Pawn, src, dst, Piece::Knight, true, false, false, false),
                pack_move(Piece::Pawn, src, dst, Piece::Bishop, true, false, false, false),
                pack_move(Piece::Pawn, src, dst, Piece::Rook, true, false, false, false),
                pack_move(Piece::Pawn, src, dst, Piece::Queen, true, false, false, false),
            ]
        } else {
            seq![pack_move(Piece::Pawn, src, dst, Piece::Pawn, true, false, false, false)]
        }
    } else if dst == m.en_passant_square {
        seq![pack_move(Piece::Pawn, src, dst, Piece::Pawn, false, false, true, false)]
    } else {
        Seq::empty()
    }
}

#[via_fn]
proof fn pawn_caps_from_decreases(m: BoardModel, src: i32, att: u64) {
    if att != 0 {
        lemma_popcount_drop_lsb(att);
    }
}

/// The capture moves of one pawn while its attack set is drained lowest
/// square first.
pub open spec fn pawn_caps_from(m: BoardModel, src: i32, att: u64) -> Seq<i32>
    decreases att,
    via pawn_caps_from_decreases
{
    if att == 0 {
        Seq::empty()
    } else {
        pawn_cap_targets(m, src, u64_trailing_zeros(att) as i32) + pawn_caps_from(
            m,
            src,
            drop_lsb(att),
        )
    }
}

#[via_fn]
proof fn pawn_moves_from_decreases(m: BoardModel, bb: u64) {
    if bb != 0 {
        lemma_popcount_drop_lsb(bb);
    }
}

/// The pawn moves emitted while the pawn bitboard is drained lowest square
/// first: each pawn's pushes, then its captures.
pub open spec fn pawn_moves_from(m: BoardModel, bb: u64) -> Seq<i32>
    decreases bb,
    via pawn_moves_from_decreases
{
    if bb == 0 {
        Seq::empty()
    } else {
        let src = u64_trailing_zeros(bb) as i32;
        pawn_push_targets(m, src) + pawn_caps_from(
            m,
            src,
            pawn_attacks_bb(m.side_to_move, src),
        ) + pawn_moves_from(m, drop_lsb(bb))
    }
}

/// All pawn moves of the side to move.
pub open spec fn pawn_moves_seq(m: BoardModel) -> Seq<i32> {
    pawn_moves_from(m, m.pieces[sided_piece_idx(Piece::Pawn, m.side_to_move)])
}

/// The castling moves of the side to move: for each still-held right whose
/// king stands on its home square un-attacked, whose rook stands on its
/// corner, and whose path is empty and (for the king's two steps)
/// un-attacked, the king's two-square step, kingside first.
pub open spec fn castle_moves_seq(m: BoardModel) -> Seq<i32> {
    let side = m.side_to_move;
    let opp = opponent_of(side);
    let kbb = m.pieces[sided_piece_idx(Piece::King, side)];
    let home: i32 = if side == Side::White {
        60
    } else {
        4
    };
    let kbit: u8 = if side == Side::White {
        1
    } else {
        4
    };
    let qbit: u8 = if side == Side::White {
        2
    } else {
        8
    };
    let rook = m.pieces[sided_piece_idx(Piece::Rook, side)];
    let occ2 = m.occupancies[2];
    if kbb == 0 {
        Seq::empty()
    } else {
        let ksq = u64_trailing_zeros(kbb) as i32;
        if ksq != home || square_attacked_spec(m, ksq, opp) {
            Seq::empty()
        } else {
            (if m.castling_rights & kbit != 0 && has_square(rook, (home + 3) as i32)
                && !has_square(occ2, (home + 1) as i32) && !has_square(occ2, (home + 2) as i32)
                && !square_attacked_spec(m, (home + 1) as i32, opp) && !square_attacked_spec(
                m,
                (home + 2) as i32,
                opp,
            ) {
                seq![
                    pack_move(
                        Piece::King,
                        home,
                        (home + 2) as i32,
                        Piece::Pawn,
                        false,
                        false,
                        false,
                        true,
                    ),
                ]
            } else {
                Seq::empty()
            }) + (if m.castling_rights & qbit != 0 && has_square(rook, (home - 4) as i32)
                && !has_square(occ2, (home - 1) as i32) && !has_square(occ2, (home - 2) as i32)
                && !has_square(occ2, (home - 3) as i32) && !square_attacked_spec(
                m,
                (home - 1) as i32,
                opp,
            ) && !square_attacked_spec(m, (home - 2) as i32, opp) {
                seq![
                    pack_move(
                        Piece::King,
                        home,
                        (home - 2) as i32,
                        Piece::Pawn,
                        false,
                        false,
                        false,
                        true,
                    ),
                ]
            } else {
                Seq::empty()
            })
        }
    }
}

#[via_fn]
proof fn king_targets_from_decreases(m: BoardModel, src: i32, att: u64) {
    if att != 0 {
        lemma_popcount_drop_lsb(att);
    }
}

/// The king's stepping moves while its attack set is drained lowest square
/// first; a destination the opponent attacks is dropped.
pub open spec fn king_targets_from(m: BoardModel, src: i32, att: u64) -> Seq<i32>
    decreases att,
    via king_targets_from_decreases
{
    if att == 0 {
        Seq::empty()
    } else {
        let dst = u64_trailing_zeros(att) as i32;
        (if square_attacked_spec(m, dst, opponent_of(m.side_to_move)) {
            Seq::empty()
        } else {
            capture_or_quiet(Piece::King, src, dst, own_occ(m), enemy_occ(m))
        }) + king_targets_from(m, src, drop_lsb(att))
    }
}

/// The stepping moves of the side's king (nothing when it has no king).
pub open spec fn king_moves_seq(m: BoardModel) -> Seq<i32> {
    let kbb = m.pieces[sided_piece_idx(Piece::King, m.side_to_move)];
    if kbb == 0 {
        Seq::empty()
    } else {
        king_targets_from(
            m,
            u64_trailing_zeros(kbb) as i32,
            king_attacks_bb(u64_trailing_zeros(kbb) as i32),
        )
    }
}

/// Every move `generate_moves` emits, in emission order: pawns, castles,
/// then knights, bishops, rooks, queens and the king, each piece's moves
/// ordered by ascending source square and, within the attack drains, by
/// ascending destination square. A pawn's quiet push comes before its
/// double push, and its pushes before its captures.
pub open spec fn generate_moves_spec(m: BoardModel) -> Seq<i32> {
    pawn_moves_seq(m) + castle_moves_seq(m) + piece_moves_seq(m, Piece::Knight) + piece_moves_seq(
        m,
        Piece::Bishop,
    ) + piece_moves_seq(m, Piece::Rook) + piece_moves_seq(m, Piece::Queen) + king_moves_seq(m)
}

} // verus!

verus! {

/// On a well-formed board a pawn stands strictly between the back ranks.
proof fn lemma_pawn_src_rank(m: BoardModel, src: i32)
    requires
        m.wf(),
        0 <= src < 64,
        has_square(m.pieces[sided_piece_idx(Piece::Pawn, m.side_to_move)], src),
    ensures
        8 <= src < 56,
{
    let bb = m.pieces[sided_piece_idx(Piece::Pawn, m.side_to_move)];
    crate::board::lemma_single_sub(bb, src);
    crate::board::lemma_disjoint_sub(bb, 0xFFu64, square_bb(src));
    crate::board::lemma_disjoint_sub(bb, 0xFF00_0000_0000_0000u64, square_bb(src));
    crate::bitboard::lemma_back_rank_square(src);
}

/// Every push the spec emits for one pawn is coherent on the board.
proof fn lemma_pawn_push_ok(m: BoardModel, src: i32)
    requires
        m.wf(),
        0 <= src < 64,
        has_square(m.pieces[sided_piece_idx(Piece::Pawn, m.side_to_move)], src),
    ensures
        forall|k: int|
            0 <= k < pawn_push_targets(m, src).len() ==> move_ok(m, pawn_push_targets(m, src)[k]),
{
    broadcast use crate::bitboard::lemma_or_member;

    let side = m.side_to_move;
    let opp = opponent_of(side);
    crate::board::lemma_sides_disjoint(m);
    lemma_pawn_src_rank(m, src);

    // pushes
    let dst = (src + push_delta(side)) as i32;
    let ddst = (src + 2 * push_delta(side)) as i32;
    if 0 <= src + push_delta(side) < 64 && !has_square(m.occupancies[2], dst) {
        lemma_move_round_trip(Piece::Pawn, src, dst, Piece::Knight, false, false, false, false);
        lemma_move_round_trip(Piece::Pawn, src, dst, Piece::Bishop, false, false, false, false);
        lemma_move_round_trip(Piece::Pawn, src, dst, Piece::Rook, false, false, false, false);
        lemma_move_round_trip(Piece::Pawn, src, dst, Piece::Queen, false, false, false, false);
        lemma_move_round_trip(Piece::Pawn, src, dst, Piece::Pawn, false, false, false, false);
        if src / 8 == start_rank_of(side) && !has_square(m.occupancies[2], ddst) {
            lemma_move_round_trip(Piece::Pawn, src, ddst, Piece::Pawn, false, true, false, false);
        }
        assert(forall|k: int|
            0 <= k < pawn_push_targets(m, src).len() ==> move_ok(m, pawn_push_targets(m, src)[k]));
    }
}

/// Every capture the spec emits for one pawn's attack set is coherent.
proof fn lemma_pawn_caps_ok(m: BoardModel, src: i32, att: u64)
    requires
        m.wf(),
        0 <= src < 64,
        has_square(m.pieces[sided_piece_idx(Piece::Pawn, m.side_to_move)], src),
        att & pawn_attacks_bb(m.side_to_move, src) == att,
    ensures
        forall|k: int|
            0 <= k < pawn_caps_from(m, src, att).len() ==> move_ok(m, pawn_caps_from(m, src, att)[k]),
    decreases att,
{
    broadcast use crate::bitboard::lemma_or_member;

    let side = m.side_to_move;
    let opp = opponent_of(side);
    if att != 0 {
        lemma_popcount_drop_lsb(att);
        lemma_lsb_is_trailing_zeros(att);
        crate::board::lemma_sides_disjoint(m);
        lemma_pawn_src_rank(m, src);
        let dst = u64_trailing_zeros(att) as i32;
        lemma_subset_member(att, pawn_attacks_bb(side, src), dst);
        crate::attacks::lemma_pawn_attack_rank(side, src, dst);
        let head = pawn_cap_targets(m, src, dst);
        if has_square(enemy_occ(m), dst) {
            crate::board::lemma_single_sub(enemy_occ(m), dst);
            crate::board::lemma_disjoint_sub(enemy_occ(m), own_occ(m), square_bb(dst));
            crate::bitboard::lemma_member_in_range(enemy_occ(m), dst);
            lemma_move_round_trip(Piece::Pawn, src, dst, Piece::Knight, true, false, false, false);
            lemma_move_round_trip(Piece::Pawn, src, dst, Piece::Bishop, true, false, false, false);
            lemma_move_round_trip(Piece::Pawn, src, dst, Piece::Rook, true, false, false, false);
            lemma_move_round_trip(Piece::Pawn, src, dst, Piece::Queen, true, false, false, false);
            lemma_move_round_trip(Piece::Pawn, src, dst, Piece::Pawn, true, false, false, false);
        } else if dst == m.en_passant_square {
            lemma_move_round_trip(Piece::Pawn, src, dst, Piece::Pawn, false, false, true, false);
            assert(16 <= m.en_passant_square < 24 || 40 <= m.en_passant_square < 48);
            assert(!has_square(m.occupancies[2], dst) && has_square(
                m.pieces[sided_piece_idx(Piece::Pawn, opp)],
                ep_victim_square(side, dst) as i32,
            ));
        }
        assert(forall|k: int| 0 <= k < head.len() ==> move_ok(m, head[k]));
        assert(drop_lsb(att) & pawn_attacks_bb(side, src) == drop_lsb(att));
        lemma_pawn_caps_ok(m, src, drop_lsb(att));
        let tail = pawn_caps_from(m, src, drop_lsb(att));
        let s = pawn_caps_from(m, src, att);
        assert(s == head + tail);
        assert forall|k: int| 0 <= k < s.len() implies move_ok(m, s[k]) by {
            if k < head.len() {
                assert(s[k] == head[k]);
            } else {
                assert(s[k] == tail[k - head.len()]);
            }
        }
    }
}

/// Every pawn move of the side to move is coherent on the board.
proof fn lemma_pawn_moves_ok(m: BoardModel, bb: u64)
    requires
        m.wf(),
        bb & m.pieces[sided_piece_idx(Piece::Pawn, m.side_to_move)] == bb,
    ensures
        forall|k: int|
            0 <= k < pawn_moves_from(m, bb).len() ==> move_ok(m, pawn_moves_from(m, bb)[k]),
    decreases bb,
{
    if bb != 0 {
        lemma_popcount_drop_lsb(bb);
        lemma_lsb_is_trailing_zeros(bb);
        let src = u64_trailing_zeros(bb) as i32;
        lemma_subset_member(bb, m.pieces[sided_piece_idx(Piece::Pawn, m.side_to_move)], src);
        lemma_pawn_push_ok(m, src);
        crate::bitboard::lemma_and_self(pawn_attacks_bb(m.side_to_move, src));
        lemma_pawn_caps_ok(m, src, pawn_attacks_bb(m.side_to_move, src));
        lemma_pawn_moves_ok(m, drop_lsb(bb));
        let head = pawn_push_targets(m, src) + pawn_caps_from(
            m,
            src,
            pawn_attacks_bb(m.side_to_move, src),
        );
        let tail = pawn_moves_from(m, drop_lsb(bb));
        let s = pawn_moves_from(m, bb);
        assert(s == head + tail);
        assert forall|k: int| 0 <= k < s.len() implies move_ok(m, s[k]) by {
            if k < head.len() {
                assert(s[k] == head[k]);
                if k < pawn_push_targets(m, src).len() {
                    assert(head[k] == pawn_push_targets(m, src)[k]);
                } else {
                    assert(head[k] == pawn_caps_from(m, src, pawn_attacks_bb(m.side_to_move, src))[k
                        - pawn_push_targets(m, src).len()]);
                }
            } else {
                assert(s[k] == tail[k - head.len()]);
            }
        }
    }
}

/// Every castling move the spec emits is coherent on the board.
proof fn lemma_castle_moves_ok(m: BoardModel)
    requires
        m.wf(),
    ensures
        forall|k: int|
            0 <= k < castle_moves_seq(m).len() ==> move_ok(m, castle_moves_seq(m)[k]),
{
    broadcast use crate::bitboard::lemma_or_member;

    let side = m.side_to_move;
    let kbb = m.pieces[sided_piece_idx(Piece::King, side)];
    let home: i32 = if side == Side::White {
        60
    } else {
        4
    };
    if kbb != 0 {
        lemma_lsb_is_trailing_zeros(kbb);
        lemma_move_round_trip(
            Piece::King,
            home,
            (home + 2) as i32,
            Piece::Pawn,
            false,
            false,
            false,
            true,
        );
        lemma_move_round_trip(
            Piece::King,
            home,
            (home - 2) as i32,
            Piece::Pawn,
            false,
            false,
            false,
            true,
        );
    }
}

/// Every king step the spec emits is coherent on the board.
proof fn lemma_king_targets_ok(m: BoardModel, src: i32, att: u64)
    requires
        m.wf(),
        0 <= src < 64,
        has_square(m.pieces[sided_piece_idx(Piece::King, m.side_to_move)], src),
    ensures
        forall|k: int|
            0 <= k < king_targets_from(m, src, att).len() ==> move_ok(
                m,
                king_targets_from(m, src, att)[k],
            ),
    decreases att,
{
    broadcast use crate::bitboard::lemma_or_member;

    if att != 0 {
        lemma_popcount_drop_lsb(att);
        lemma_lsb_is_trailing_zeros(att);
        crate::board::lemma_sides_disjoint(m);
        let dst = u64_trailing_zeros(att) as i32;
        let head = if square_attacked_spec(m, dst, opponent_of(m.side_to_move)) {
            Seq::<i32>::empty()
        } else {
            capture_or_quiet(Piece::King, src, dst, own_occ(m), enemy_occ(m))
        };
        if !square_attacked_spec(m, dst, opponent_of(m.side_to_move)) {
            if has_square(enemy_occ(m), dst) {
                lemma_move_round_trip(Piece::King, src, dst, Piece::Pawn, true, false, false, false);
                crate::board::lemma_single_sub(enemy_occ(m), dst);
                crate::board::lemma_disjoint_sub(enemy_occ(m), own_occ(m), square_bb(dst));
            } else if !has_square(own_occ(m), dst) {
                lemma_move_round_trip(
                    Piece::King,
                    src,
                    dst,
                    Piece::Pawn,
                    false,
                    false,
                    false,
                    false,
                );
            }
        }
        assert(forall|k: int| 0 <= k < head.len() ==> move_ok(m, head[k]));
        lemma_king_targets_ok(m, src, drop_lsb(att));
        let tail = king_targets_from(m, src, drop_lsb(att));
        let s = king_targets_from(m, src, att);
        assert(s == head + tail);
        assert forall|k: int| 0 <= k < s.len() implies move_ok(m, s[k]) by {
            if k < head.len() {
                assert(s[k] == head[k]);
            } else {
                assert(s[k] == tail[k - head.len()]);
            }
        }
    }
}

} // verus!

verus! {

/// Drains the bitboard of one leaper or slider kind and emits its captures
/// and quiet moves.
#[verifier::rlimit(30)]
fn generate_piece(piece: Piece, board: &Board, side: Side, moves: &mut Moves, attacks: &Attacks)
    requires
        attacks.wf(),
        board@.wf(),
        side == board@.side_to_move,
        piece == Piece::Knight || piece == Piece::Bishop || piece == Piece::Rook || piece
            == Piece::Queen,
    ensures
        final(moves)@ == old(moves)@ + piece_moves_seq(board@, piece),
        forall|k: int|
            old(moves)@.len() <= k < final(moves)@.len() ==> move_ok(board@, final(moves)@[k]),
{
    let occupancy = board.occupancies[2];
    let my_occupancy = board.occupancies[side_index(side)];
    let opponent_occupancy = board.occupancies[side_index(opponent_side(side))];

    let mut bitboard = board.bitboard(piece, side);
    let ghost full = bitboard;
    proof {
        crate::bitboard::lemma_and_self(full);
    }
    while bitboard != 0
        invariant
            attacks.wf(),
            board@.wf(),
            side == board@.side_to_move,
            piece == Piece::Knight || piece == Piece::Bishop || piece == Piece::Rook || piece
                == Piece::Queen,
            occupancy == board@.occupancies[2],
            my_occupancy == own_occ(board@),
            opponent_occupancy == enemy_occ(board@),
            full == board@.pieces[sided_piece_idx(piece, side)],
            bitboard & full == bitboard,
            old(moves)@ + piece_moves_from(board@, piece, full) == moves@ + piece_moves_from(
                board@,
                piece,
                bitboard,
            ),
        decreases bitboard,
    {
        proof {
            lemma_popcount_drop_lsb(bitboard);
            lemma_lsb_is_trailing_zeros(bitboard);
            lemma_subset_member(bitboard, full, u64_trailing_zeros(bitboard) as i32);
        }
        let square = lsb_index(bitboard) as i32;
        let ghost prev = bitboard;
        let ghost moves_prev = moves@;
        bitboard = pop_bit(bitboard, square);

        let att = match piece {
            Piece::Bishop => attacks.get_bishop_attacks(square, occupancy),
            Piece::Rook => attacks.get_rook_attacks(square, occupancy),
            Piece::Queen => attacks.get_queen_attacks(square, occupancy),
            _ => attacks.get_knight_attacks(square),
        };
        proof {
            assert(att == attack_set_of(piece, square, board@.occupancies[2]));
        }
        handle_attacks(piece, att, square, my_occupancy, opponent_occupancy, moves);
        proof {
            let head = drain_targets(piece, square, att, my_occupancy, opponent_occupancy);
            let tail = piece_moves_from(board@, piece, bitboard);
            assert(piece_moves_from(board@, piece, prev) == head + tail);
            assert((moves_prev + head) + tail =~= moves_prev + (head + tail));
        }
    }
    proof {
        assert(moves@ + piece_moves_from(board@, piece, 0u64) =~= moves@);
        crate::bitboard::lemma_and_self(full);
        lemma_piece_moves_ok(board@, piece, full);
        assert forall|k: int|
            old(moves)@.len() <= k < moves@.len() implies move_ok(board@, moves@[k]) by {
            assert(moves@[k] == piece_moves_seq(board@, piece)[k - old(moves)@.len()]);
        }
    }
}

/// Emits the knight moves of the side to move.
fn generate_knights(board: &Board, side: Side, moves: &mut Moves, attacks: &Attacks)
    requires
        attacks.wf(),
        board@.wf(),
        side == board@.side_to_move,
    ensures
        final(moves)@ == old(moves)@ + piece_moves_seq(board@, Piece::Knight),
        forall|k: int|
            old(moves)@.len() <= k < final(moves)@.len() ==> move_ok(board@, final(moves)@[k]),
{
    generate_piece(Piece::Knight, board, side, moves, attacks);
}

/// Emits the bishop moves of the side to move.
fn generate_bishops(board: &Board, side: Side, moves: &mut Moves, attacks: &Attacks)
    requires
        attacks.wf(),
        board@.wf(),
        side == board@.side_to_move,
    ensures
        final(moves)@ == old(moves)@ + piece_moves_seq(board@, Piece::Bishop),
        forall|k: int|
            old(moves)@.len() <= k < final(moves)@.len() ==> move_ok(board@, final(moves)@[k]),
{
    generate_piece(Piece::Bishop, board, side, moves, attacks);
}

/// Emits the rook moves of the side to move.
fn generate_rooks(board: &Board, side: Side, moves: &mut Moves, attacks: &Attacks)
    requires
        attacks.wf(),
        board@.wf(),
        side == board@.side_to_move,
    ensures
        final(moves)@ == old(moves)@ + piece_moves_seq(board@, Piece::Rook),
        forall|k: int|
            old(moves)@.len() <= k < final(moves)@.len() ==> move_ok(board@, final(moves)@[k]),
{
    generate_piece(Piece::Rook, board, side, moves, attacks);
}

/// Emits the queen moves of the side to move.
fn generate_queens(board: &Board, side: Side, moves: &mut Moves, attacks: &Attacks)
    requires
        attacks.wf(),
        board@.wf(),
        side == board@.side_to_move,
    ensures
        final(moves)@ == old(moves)@ + piece_moves_seq(board@, Piece::Queen),
        forall|k: int|
            old(moves)@.len() <= k < final(moves)@.len() ==> move_ok(board@, final(moves)@[k]),
{
    generate_piece(Piece::Queen, board, side, moves, attacks);
}

/// Emits the king's stepping moves, skipping any destination the opponent
/// attacks.
fn generate_kings(board: &Board, side: Side, moves: &mut Moves, attacks: &Attacks)
    requires
        attacks.wf(),
        board@.wf(),
        side == board@.side_to_move,
    ensures
        final(moves)@ == old(moves)@ + king_moves_seq(board@),
        forall|k: int|
            old(moves)@.len() <= k < final(moves)@.len() ==> move_ok(board@, final(moves)@[k]),
{
    let my_occupancy = board.occupancies[side_index(side)];
    let opponent_occupancy = board.occupancies[side_index(opponent_side(side))];
    let opp = opponent_side(side);

    let king = board.bitboard(Piece::King, side);
    if king == 0 {
        proof {
            assert(moves@ + king_moves_seq(board@) =~= moves@);
        }
        return ;
    }
    proof {
        lemma_lsb_is_trailing_zeros(king);
    }
    let square = lsb_index(king) as i32;

    let mut att = attacks.get_king_attacks(square);
    let ghost att0 = att;
    while att != 0
        invariant
            attacks.wf(),
            board@.wf(),
            side == board@.side_to_move,
            opp == opponent_of(side),
            my_occupancy == own_occ(board@),
            opponent_occupancy == enemy_occ(board@),
            king == board@.pieces[sided_piece_idx(Piece::King, side)],
            king != 0,
            square == u64_trailing_zeros(king) as i32,
            0 <= square < 64,
            old(moves)@ + king_targets_from(board@, square, att0) == moves@ + king_targets_from(
                board@,
                square,
                att,
            ),
        decreases att,
    {
        proof {
            lemma_popcount_drop_lsb(att);
            lemma_lsb_is_trailing_zeros(att);
        }
        let attacked_square = lsb_index(att) as i32;
        let ghost prev = att;
        let ghost moves_prev = moves@;
        att = pop_bit(att, attacked_square);

        let attacked_bitboard = bitboard_from_square(attacked_square);

        if !is_square_attacked(board, attacked_square, opp, attacks) {
            if bits_collide(opponent_occupancy, attacked_bitboard) {
                moves.push(Move::encode_capture(Piece::King, square, attacked_square));
            } else if !bits_collide(my_occupancy, attacked_bitboard) {
                moves.push(Move::encode(Piece::King, square, attacked_square));
            }
        }
        proof {
            let head = if square_attacked_spec(board@, attacked_square, opponent_of(side)) {
                Seq::<i32>::empty()
            } else {
                capture_or_quiet(
                    Piece::King,
                    square,
                    attacked_square,
                    my_occupancy,
                    opponent_occupancy,
                )
            };
            let tail = king_targets_from(board@, square, att);
            assert(king_targets_from(board@, square, prev) == head + tail);
            assert(moves@ =~= moves_prev + head);
            assert((moves_prev + head) + tail =~= moves_prev + (head + tail));
        }
    }
    proof {
        assert(moves@ + king_targets_from(board@, square, 0u64) =~= moves@);
        lemma_lsb_is_trailing_zeros(king);
        lemma_king_targets_ok(board@, square, att0);
        assert forall|k: int|
            old(moves)@.len() <= k < moves@.len() implies move_ok(board@, moves@[k]) by {
            assert(moves@[k] == king_moves_seq(board@)[k - old(moves)@.len()]);
        }
    }
}

/// Emits the castling moves the rights, the empty squares and the attack
/// checks allow; the kingside castle comes first.
fn generate_king_castles(board: &Board, side: Side, moves: &mut Moves, attacks: &Attacks)
    requires
        attacks.wf(),
        board@.wf(),
        side == board@.side_to_move,
    ensures
        final(moves)@ == old(moves)@ + castle_moves_seq(board@),
        forall|k: int|
            old(moves)@.len() <= k < final(moves)@.len() ==> move_ok(board@, final(moves)@[k]),
{
    let king_bitboard = board.bitboard(Piece::King, side);
    if king_bitboard == 0 {
        proof {
            assert(moves@ + castle_moves_seq(board@) =~= moves@);
        }
        return ;
    }
    proof {
        lemma_lsb_is_trailing_zeros(king_bitboard);
    }
    let king_square = lsb_index(king_bitboard) as i32;
    let opp = opponent_side(side);
    let home: i32 = if side_index(side) == 0 {
        60
    } else {
        4
    };

    if king_square != home || is_square_attacked(board, king_square, opp, attacks) {
        proof {
            assert(moves@ + castle_moves_seq(board@) =~= moves@);
        }
        return ;
    }

    let (king_bit, queen_bit): (u8, u8) = if side_index(side) == 0 {
        (1, 2)
    } else {
        (4, 8)
    };
    let rook_bitboard = board.bitboard(Piece::Rook, side);
    let occupancy = board.occupancies[2];

    let ghost moves_mid = moves@;
    if board.castling_rights & king_bit != 0 && get_bit(rook_bitboard, home + 3) && !get_bit(
        occupancy,
        home + 1,
    ) && !get_bit(occupancy, home + 2) && !is_square_attacked(board, home + 1, opp, attacks)
        && !is_square_attacked(board, home + 2, opp, attacks) {
        moves.push(Move::encode_castling(Piece::King, home, home + 2));
    }
    let ghost after_kingside = moves@;
    if board.castling_rights & queen_bit != 0 && get_bit(rook_bitboard, home - 4) && !get_bit(
        occupancy,
        home - 1,
    ) && !get_bit(occupancy, home - 2) && !get_bit(occupancy, home - 3) && !is_square_attacked(
        board,
        home - 1,
        opp,
        attacks,
    ) && !is_square_attacked(board, home - 2, opp, attacks) {
        moves.push(Move::encode_castling(Piece::King, home, home - 2));
    }
    proof {
        assert(moves@ =~= old(moves)@ + castle_moves_seq(board@));
        lemma_castle_moves_ok(board@);
        assert forall|k: int|
            old(moves)@.len() <= k < moves@.len() implies move_ok(board@, moves@[k]) by {
            assert(moves@[k] == castle_moves_seq(board@)[k - old(moves)@.len()]);
        }
    }
}

} // verus!

verus! {

/// Emits the pawn moves of the side to move: for each pawn its pushes
/// (promotions from the promotion rank, the flagged double push from the
/// start rank), then its captures (promoting captures, plain captures and
/// the en-passant capture).
#[verifier::rlimit(40)]
fn generate_pawns(board: &Board, side: Side, moves: &mut Moves, attacks: &Attacks)
    requires
        attacks.wf(),
        board@.wf(),
        side == board@.side_to_move,
    ensures
        final(moves)@ == old(moves)@ + pawn_moves_seq(board@),
        forall|k: int|
            old(moves)@.len() <= k < final(moves)@.len() ==> move_ok(board@, final(moves)@[k]),
{
    let all_occupancies = board.occupancies[2];
    let opp = opponent_side(side);
    let opp_occupancies = board.occupancies[side_index(opp)];
    let en_passant_square = board.en_passant_square;
    let white = side_index(side) == 0;
    let one: i32 = if white {
        -8
    } else {
        8
    };
    let promo_rank: i32 = if white {
        1
    } else {
        6
    };
    let start_rank: i32 = if white {
        6
    } else {
        1
    };

    let mut bitboard = board.bitboard(Piece::Pawn, side);
    let ghost full = bitboard;
    proof {
        crate::bitboard::lemma_and_self(full);
    }
    while bitboard != 0
        invariant
            attacks.wf(),
            board@.wf(),
            side == board@.side_to_move,
            opp == opponent_of(side),
            all_occupancies == board@.occupancies[2],
            opp_occupancies == enemy_occ(board@),
            en_passant_square == board@.en_passant_square,
            white == (side == Side::White),
            one == push_delta(side),
            promo_rank == promo_rank_of(side),
            start_rank == start_rank_of(side),
            full == board@.pieces[sided_piece_idx(Piece::Pawn, side)],
            bitboard & full == bitboard,
            old(moves)@ + pawn_moves_from(board@, full) == moves@ + pawn_moves_from(
                board@,
                bitboard,
            ),
        decreases bitboard,
    {
        proof {
            lemma_popcount_drop_lsb(bitboard);
            lemma_lsb_is_trailing_zeros(bitboard);
            lemma_subset_member(bitboard, full, u64_trailing_zeros(bitboard) as i32);
        }
        let src_square = lsb_index(bitboard) as i32;
        let ghost prev = bitboard;
        let ghost moves_prev = moves@;
        bitboard = pop_bit(bitboard, src_square);

        // pushes
        let dst_square = src_square + one;
        if 0 <= dst_square && dst_square < 64 && !get_bit(all_occupancies, dst_square) {
            if src_square / 8 == promo_rank {
                moves.push(
                    Move::encode_promotion(
                        Piece::Pawn,
                        src_square,
                        dst_square,
                        Piece::Knight,
                        false,
                    ),
                );
                moves.push(
                    Move::encode_promotion(
                        Piece::Pawn,
                        src_square,
                        dst_square,
                        Piece::Bishop,
                        false,
                    ),
                );
                moves.push(
                    Move::encode_promotion(Piece::Pawn, src_square, dst_square, Piece::Rook, false),
                );
                moves.push(
                    Move::encode_promotion(
                        Piece::Pawn,
                        src_square,
                        dst_square,
                        Piece::Queen,
                        false,
                    ),
                );
            } else {
                moves.push(Move::encode(Piece::Pawn, src_square, dst_square));
            }
            if src_square / 8 == start_rank {
                let double_square = src_square + 2 * one;
                if !get_bit(all_occupancies, double_square) {
                    moves.push(Move::encode_double_push(Piece::Pawn, src_square, double_square));
                }
            }
        }
        proof {
            assert(moves@ =~= moves_prev + pawn_push_targets(board@, src_square));
        }
        let ghost after_push = moves@;

        // captures
        let mut att = attacks.get_pawn_attacks(src_square, side);
        let ghost att0 = att;
        while att != 0
            invariant
                attacks.wf(),
                board@.wf(),
                side == board@.side_to_move,
                opp == opponent_of(side),
                all_occupancies == board@.occupancies[2],
                opp_occupancies == enemy_occ(board@),
                en_passant_square == board@.en_passant_square,
                white == (side == Side::White),
                promo_rank == promo_rank_of(side),
                0 <= src_square < 64,
                after_push + pawn_caps_from(board@, src_square, att0) == moves@ + pawn_caps_from(
                    board@,
                    src_square,
                    att,
                ),
            decreases att,
        {
            proof {
                lemma_popcount_drop_lsb(att);
                lemma_lsb_is_trailing_zeros(att);
            }
            let dst = lsb_index(att) as i32;
            let ghost prev_att = att;
            let ghost caps_prev = moves@;
            att = pop_bit(att, dst);

            if get_bit(opp_occupancies, dst) {
                if src_square / 8 == promo_rank {
                    moves.push(
                        Move::encode_promotion(Piece::Pawn, src_square, dst, Piece::Knight, true),
                    );
                    moves.push(
                        Move::encode_promotion(Piece::Pawn, src_square, dst, Piece::Bishop, true),
                    );
                    moves.push(
                        Move::encode_promotion(Piece::Pawn, src_square, dst, Piece::Rook, true),
                    );
                    moves.push(
                        Move::encode_promotion(Piece::Pawn, src_square, dst, Piece::Queen, true),
                    );
                } else {
                    moves.push(Move::encode_capture(Piece::Pawn, src_square, dst));
                }
            } else if en_passant_square == dst {
                moves.push(Move::encode_en_passant(Piece::Pawn, src_square, dst));
            }
            proof {
                let head = pawn_cap_targets(board@, src_square, dst);
                let tail = pawn_caps_from(board@, src_square, att);
                assert(pawn_caps_from(board@, src_square, prev_att) == head + tail);
                assert(moves@ =~= caps_prev + head);
                assert((caps_prev + head) + tail =~= caps_prev + (head + tail));
            }
        }
        proof {
            assert(moves@ + pawn_caps_from(board@, src_square, 0u64) =~= moves@);
            let pushes = pawn_push_targets(board@, src_square);
            let caps = pawn_caps_from(board@, src_square, pawn_attacks_bb(side, src_square));
            let tail = pawn_moves_from(board@, bitboard);
            assert(pawn_moves_from(board@, prev) == pushes + caps + tail);
            assert(moves@ =~= moves_prev + (pushes + caps));
            assert((moves_prev + (pushes + caps)) + tail =~= moves_prev + ((pushes + caps) + tail));
            assert((pushes + caps) + tail =~= pushes + caps + tail);
        }
    }
    proof {
        assert(moves@ + pawn_moves_from(board@, 0u64) =~= moves@);
        crate::bitboard::lemma_and_self(full);
        lemma_pawn_moves_ok(board@, full);
        assert forall|k: int|
            old(moves)@.len() <= k < moves@.len() implies move_ok(board@, moves@[k]) by {
            assert(moves@[k] == pawn_moves_seq(board@)[k - old(moves)@.len()]);
        }
    }
}

/// Generates every pseudo-legal move of the position (the king's steps are
/// already filtered against attacked squares): pawns first, then castles,
/// knights, bishops, rooks, queens and the king, each piece's moves ordered
/// by ascending source and destination square. No move appears twice, and
/// every emitted move is coherent on the board, so playing it preserves
/// well-formedness.
pub fn generate_moves(board: &Board, attacks: &Attacks) -> (r: Moves)
    requires
        attacks.wf(),
        board@.wf(),
    ensures
        r@ == generate_moves_spec(board@),
        r@.no_duplicates(),
        forall|k: int| 0 <= k < r@.len() ==> move_ok(board@, r@[k]),
{
    let mut moves = Moves::new();
    let side = board.side_to_move;

    match side {
        Side::White => {
            generate_pawns(board, Side::White, &mut moves, attacks);
            generate_king_castles(board, Side::White, &mut moves, attacks);
        },
        Side::Black => {
            generate_pawns(board, Side::Black, &mut moves, attacks);
            generate_king_castles(board, Side::Black, &mut moves, attacks);
        },
        Side::Both => {
            proof {
                assert(false);
            }
        },
    }

    generate_knights(board, side, &mut moves, attacks);
    generate_bishops(board, side, &mut moves, attacks);
    generate_rooks(board, side, &mut moves, attacks);
    generate_queens(board, side, &mut moves, attacks);
    generate_kings(board, side, &mut moves, attacks);

    proof {
        assert(moves@ =~= generate_moves_spec(board@));
        lemma_generate_moves_distinct(board@);
    }
    moves
}

/// A coherent move is legal when playing it leaves the mover's king square
/// unattacked by the side then to move (a board without that king imposes
/// no such constraint).
pub open spec fn move_is_legal_spec(m: BoardModel, mv: i32) -> bool {
    let next = apply_move_spec(m, mv);
    let king_bb = next.pieces[sided_piece_idx(Piece::King, m.side_to_move)];
    king_bb == 0 || !square_attacked_spec(
        next,
        u64_trailing_zeros(king_bb) as i32,
        next.side_to_move,
    )
}

/// Whether a coherent move is legal: after playing it, the mover's king
/// square is not attacked by the side then to move.
pub fn is_move_legal(board: &Board, mv: i32, attacks: &Attacks) -> (r: bool)
    requires
        attacks.wf(),
        board@.wf(),
        move_ok(board@, mv),
    ensures
        r == move_is_legal_spec(board@, mv),
{
    let mover = board.side_to_move;
    let mut copy = *board;
    copy.play_move(mv);
    let king_bb = copy.bitboard(Piece::King, mover);
    if king_bb == 0 {
        true
    } else {
        proof {
            lemma_lsb_is_trailing_zeros(king_bb);
        }
        let king_square = lsb_index(king_bb) as i32;
        !is_square_attacked(&copy, king_square, copy.side_to_move, attacks)
    }
}

} // verus!

verus! {

/// Every move the generator's specification emits is coherent on its board.
pub proof fn lemma_generated_moves_ok(m: BoardModel)
    requires
        m.wf(),
    ensures
        forall|k: int|
            0 <= k < generate_moves_spec(m).len() ==> move_ok(m, generate_moves_spec(m)[k]),
{
    let s1 = pawn_moves_seq(m);
    let s2 = castle_moves_seq(m);
    let s3 = piece_moves_seq(m, Piece::Knight);
    let s4 = piece_moves_seq(m, Piece::Bishop);
    let s5 = piece_moves_seq(m, Piece::Rook);
    let s6 = piece_moves_seq(m, Piece::Queen);
    let s7 = king_moves_seq(m);
    crate::bitboard::lemma_and_self(m.pieces[sided_piece_idx(Piece::Pawn, m.side_to_move)]);
    lemma_pawn_moves_ok(m, m.pieces[sided_piece_idx(Piece::Pawn, m.side_to_move)]);
    lemma_castle_moves_ok(m);
    let bb3 = m.pieces[sided_piece_idx(Piece::Knight, m.side_to_move)];
    crate::bitboard::lemma_and_self(bb3);
    lemma_piece_moves_ok(m, Piece::Knight, bb3);
    let bb4 = m.pieces[sided_piece_idx(Piece::Bishop, m.side_to_move)];
    crate::bitboard::lemma_and_self(bb4);
    lemma_piece_moves_ok(m, Piece::Bishop, bb4);
    let bb5 = m.pieces[sided_piece_idx(Piece::Rook, m.side_to_move)];
    crate::bitboard::lemma_and_self(bb5);
    lemma_piece_moves_ok(m, Piece::Rook, bb5);
    let bb6 = m.pieces[sided_piece_idx(Piece::Queen, m.side_to_move)];
    crate::bitboard::lemma_and_self(bb6);
    lemma_piece_moves_ok(m, Piece::Queen, bb6);
    let kbb = m.pieces[sided_piece_idx(Piece::King, m.side_to_move)];
    if kbb != 0 {
        lemma_lsb_is_trailing_zeros(kbb);
        lemma_king_targets_ok(
            m,
            u64_trailing_zeros(kbb) as i32,
            king_attacks_bb(u64_trailing_zeros(kbb) as i32),
        );
    }
    let s = generate_moves_spec(m);
    assert forall|k: int| 0 <= k < s.len() implies move_ok(m, s[k]) by {
        let n1 = s1.len() as int;
        let n2 = n1 + s2.len();
        let n3 = n2 + s3.len();
        let n4 = n3 + s4.len();
        let n5 = n4 + s5.len();
        let n6 = n5 + s6.len();
        if k < n1 {
            assert(s[k] == s1[k]);
        } else if k < n2 {
            assert(s[k] == s2[k - n1]);
        } else if k < n3 {
            assert(s[k] == s3[k - n2]);
        } else if k < n4 {
            assert(s[k] == s4[k - n3]);
        } else if k < n5 {
            assert(s[k] == s5[k - n4]);
        } else if k < n6 {
            assert(s[k] == s6[k - n5]);
        } else {
            assert(s[k] == s7[k - n6]);
        }
    }
}

/// The reachability invariant of the generator: playing any move the
/// specification emits on a well-formed board yields a well-formed board —
/// in particular the three occupancies stay exactly the unions of the piece
/// bitboards, and the piece bitboards stay pairwise disjoint, along every
/// line of emitted moves.
pub proof fn lemma_emitted_move_keeps_wf(m: BoardModel, k: int)
    requires
        m.wf(),
        0 <= k < generate_moves_spec(m).len(),
    ensures
        apply_move_spec(m, generate_moves_spec(m)[k]).wf(),
{
    lemma_generated_moves_ok(m);
    crate::board::lemma_apply_move_wf(m, generate_moves_spec(m)[k]);
}

} // verus!

verus! {

/// The position flipped top to bottom with the colours exchanged: every
/// piece set is mirrored and handed to the other colour, the occupancies
/// follow, the turn and the castling rights swap colours, and the
/// en-passant square moves to its mirrored rank.
pub open spec fn mirror_board(m: BoardModel) -> BoardModel {
    BoardModel {
        pieces: Seq::new(
            12,
            |i: int|
                mirror_bb(
                    m.pieces[if i < 6 {
                        i + 6
                    } else {
                        i - 6
                    }],
                ),
        ),
        occupancies: seq![
            mirror_bb(m.occupancies[1]),
            mirror_bb(m.occupancies[0]),
            mirror_bb(m.occupancies[2]),
        ],
        side_to_move: opponent_of(m.side_to_move),
        en_passant_square: if 0 <= m.en_passant_square < 64 {
            m.en_passant_square % 8 + 8 * (7 - m.en_passant_square / 8)
        } else {
            -1
        },
        castling_rights: ((m.castling_rights & 3) << 2u8) | ((m.castling_rights >> 2u8) & 3),
    }
}

/// The square-attack query is indifferent to the board symmetry: on the
/// mirrored position, the mirrored square is attacked by the swapped colour
/// exactly when the original square is attacked by the original colour.
#[verifier::rlimit(30)]
pub proof fn lemma_square_attacked_mirror(m: BoardModel, square: i32, attacking_side: Side)
    requires
        0 <= square < 64,
        attacking_side != Side::Both,
        m.pieces.len() == 12,
        m.occupancies.len() == 3,
    ensures
        square_attacked_spec(mirror_board(m), square ^ 56i32, opponent_of(attacking_side))
            == square_attacked_spec(m, square, attacking_side),
{
    crate::attacks::lemma_mirror_facts();
    crate::attacks::lemma_mirror_square(square);
    crate::attacks::lemma_attacks_mirror(square, m.occupancies[2] & bishop_mask_bb(square));
    crate::attacks::lemma_attacks_mirror(square, m.occupancies[2] & rook_mask_bb(square));
    let mm = mirror_board(m);
    let opp = opponent_of(attacking_side);
    let occ = m.occupancies[2];

    assert(mm.occupancies[2] == mirror_bb(occ));
    assert(mm.pieces[sided_piece_idx(Piece::Pawn, opp)] == mirror_bb(
        m.pieces[sided_piece_idx(Piece::Pawn, attacking_side)],
    ));
    assert(mm.pieces[sided_piece_idx(Piece::Knight, opp)] == mirror_bb(
        m.pieces[sided_piece_idx(Piece::Knight, attacking_side)],
    ));
    assert(mm.pieces[sided_piece_idx(Piece::Bishop, opp)] == mirror_bb(
        m.pieces[sided_piece_idx(Piece::Bishop, attacking_side)],
    ));
    assert(mm.pieces[sided_piece_idx(Piece::Rook, opp)] == mirror_bb(
        m.pieces[sided_piece_idx(Piece::Rook, attacking_side)],
    ));
    assert(mm.pieces[sided_piece_idx(Piece::Queen, opp)] == mirror_bb(
        m.pieces[sided_piece_idx(Piece::Queen, attacking_side)],
    ));
    assert(mm.pieces[sided_piece_idx(Piece::King, opp)] == mirror_bb(
        m.pieces[sided_piece_idx(Piece::King, attacking_side)],
    ));

    assert(pawn_attacks_bb(opponent_of(opp), square ^ 56i32) == mirror_bb(
        pawn_attacks_bb(opponent_of(attacking_side), square),
    ));
    assert(mirror_bb(pawn_attacks_bb(opponent_of(attacking_side), square)) & mirror_bb(
        m.pieces[sided_piece_idx(Piece::Pawn, attacking_side)],
    ) == mirror_bb(
        pawn_attacks_bb(opponent_of(attacking_side), square) & m.pieces[sided_piece_idx(
            Piece::Pawn,
            attacking_side,
        )],
    ));
    assert(mirror_bb(knight_attacks_bb(square)) & mirror_bb(
        m.pieces[sided_piece_idx(Piece::Knight, attacking_side)],
    ) == mirror_bb(
        knight_attacks_bb(square) & m.pieces[sided_piece_idx(Piece::Knight, attacking_side)],
    ));
    assert(mirror_bb(king_attacks_bb(square)) & mirror_bb(
        m.pieces[sided_piece_idx(Piece::King, attacking_side)],
    ) == mirror_bb(
        king_attacks_bb(square) & m.pieces[sided_piece_idx(Piece::King, attacking_side)],
    ));

    let bblk = occ & bishop_mask_bb(square);
    let rblk = occ & rook_mask_bb(square);
    assert(mirror_bb(occ) & bishop_mask_bb(square ^ 56i32) == mirror_bb(bblk));
    assert(mirror_bb(occ) & rook_mask_bb(square ^ 56i32) == mirror_bb(rblk));
    assert(bishop_rays(square ^ 56i32, mirror_bb(bblk)) == mirror_bb(bishop_rays(square, bblk)));
    assert(rook_rays(square ^ 56i32, mirror_bb(rblk)) == mirror_bb(rook_rays(square, rblk)));
    assert(mirror_bb(bishop_rays(square, bblk)) & mirror_bb(
        m.pieces[sided_piece_idx(Piece::Bishop, attacking_side)],
    ) == mirror_bb(
        bishop_rays(square, bblk) & m.pieces[sided_piece_idx(Piece::Bishop, attacking_side)],
    ));
    assert(mirror_bb(rook_rays(square, rblk)) & mirror_bb(
        m.pieces[sided_piece_idx(Piece::Rook, attacking_side)],
    ) == mirror_bb(
        rook_rays(square, rblk) & m.pieces[sided_piece_idx(Piece::Rook, attacking_side)],
    ));
    assert((mirror_bb(bishop_rays(square, bblk)) | mirror_bb(rook_rays(square, rblk))) == mirror_bb(
        bishop_rays(square, bblk) | rook_rays(square, rblk),
    ));
    assert(mirror_bb(bishop_rays(square, bblk) | rook_rays(square, rblk)) & mirror_bb(
        m.pieces[sided_piece_idx(Piece::Queen, attacking_side)],
    ) == mirror_bb(
        (bishop_rays(square, bblk) | rook_rays(square, rblk)) & m.pieces[sided_piece_idx(
            Piece::Queen,
            attacking_side,
        )],
    ));
}

} // verus!

verus! {

/// The subsequence of `s` whose moves are legal on `m`, in order.
pub open spec fn filter_legal(m: BoardModel, s: Seq<i32>) -> Seq<i32>
    decreases s.len(),
{
    if s.len() == 0 {
        Seq::empty()
    } else {
        filter_legal(m, s.drop_last()) + (if move_is_legal_spec(m, s.last()) {
            seq![s.last()]
        } else {
            Seq::empty()
        })
    }
}

/// Every move legal under standard chess rules, in emission order: the
/// generated sequence with each move that would leave the mover's own king
/// attacked dropped.
pub open spec fn legal_moves_spec(m: BoardModel) -> Seq<i32> {
    filter_legal(m, generate_moves_spec(m))
}

/// Generates the legal moves of the position: the pseudo-legal sequence,
/// with every move that would leave the mover's own king attacked filtered
/// out through the make-move legality test.
#[verifier::rlimit(30)]
pub fn generate_legal_moves(board: &Board, attacks: &Attacks) -> (r: Moves)
    requires
        attacks.wf(),
        board@.wf(),
    ensures
        r@ == legal_moves_spec(board@),
        r@.no_duplicates(),
        forall|k: int|
            0 <= k < r@.len() ==> move_ok(board@, r@[k]) && move_is_legal_spec(board@, r@[k]),
{
    let moves = generate_moves(board, attacks);
    let mut legal = Moves::new();
    let list = moves.moves();
    let mut i: usize = 0;
    while i < list.len()
        invariant
            attacks.wf(),
            board@.wf(),
            list@ == generate_moves_spec(board@),
            forall|k: int| 0 <= k < list@.len() ==> move_ok(board@, list@[k]),
            i <= list@.len(),
            legal@ == filter_legal(board@, list@.take(i as int)),
            forall|k: int|
                0 <= k < legal@.len() ==> move_ok(board@, legal@[k]) && move_is_legal_spec(
                    board@,
                    legal@[k],
                ),
        decreases list@.len() - i,
    {
        let ghost prev = legal@;
        let mv = list[i];
        if is_move_legal(board, mv, attacks) {
            legal.push(mv);
        }
        proof {
            assert(list@.take(i + 1int).drop_last() =~= list@.take(i as int));
            assert(list@.take(i + 1int).last() == list@[i as int]);
            assert(legal@ =~= filter_legal(board@, list@.take(i as int)) + (
            if move_is_legal_spec(board@, list@[i as int]) {
                seq![list@[i as int]]
            } else {
                Seq::<i32>::empty()
            }));
        }
        i = i + 1;
    }
    proof {
        assert(list@.take(list@.len() as int) =~= list@);
        lemma_filter_legal_distinct(board@, generate_moves_spec(board@));
    }
    legal
}

} // verus!

verus! {

/// The emission group a move word belongs to: pawn moves, castles, then
/// the stepping moves of the five remaining piece kinds.
spec fn move_group(mv: i32) -> int {
    if move_piece(mv) == Piece::Pawn {
        0
    } else if move_is_castling(mv) {
        1
    } else {
        match move_piece(mv) {
            Piece::Knight => 2,
            Piece::Bishop => 3,
            Piece::Rook => 4,
            Piece::Queen => 5,
            Piece::King => 6,
            Piece::Pawn => 0,
        }
    }
}

/// The drain of one attack set emits pairwise-distinct words, all carrying
/// the drained piece, the source square, a destination from the attack set,
/// and no castling flag.
proof fn lemma_drain_targets_distinct(piece: Piece, src: i32, att: u64, my: u64, opp: u64)
    requires
        0 <= src < 64,
    ensures
        drain_targets(piece, src, att, my, opp).no_duplicates(),
        forall|k: int|
            0 <= k < drain_targets(piece, src, att, my, opp).len() ==> move_piece(
                #[trigger] drain_targets(piece, src, att, my, opp)[k],
            ) == piece && move_src(drain_targets(piece, src, att, my, opp)[k]) == src && has_square(
                att,
                move_dst(drain_targets(piece, src, att, my, opp)[k]),
            ) && !move_is_castling(drain_targets(piece, src, att, my, opp)[k]),
    decreases att,
{
    broadcast use crate::bitboard::lemma_square_bb_member, crate::bitboard::lemma_diff_member;

    if att != 0 {
        lemma_popcount_drop_lsb(att);
        lemma_lsb_is_trailing_zeros(att);
        crate::bitboard::lemma_and_self(att);
        let dst = u64_trailing_zeros(att) as i32;
        lemma_subset_member(att, att, dst);
        lemma_move_round_trip(piece, src, dst, Piece::Pawn, true, false, false, false);
        lemma_move_round_trip(piece, src, dst, Piece::Pawn, false, false, false, false);
        lemma_drain_targets_distinct(piece, src, drop_lsb(att), my, opp);
        let head = capture_or_quiet(piece, src, dst, my, opp);
        let tail = drain_targets(piece, src, drop_lsb(att), my, opp);
        let s = drain_targets(piece, src, att, my, opp);
        assert(s == head + tail);
        // tail destinations lie in the remaining bits, which exclude `dst`
        assert forall|k: int| 0 <= k < tail.len() implies has_square(att, move_dst(tail[k]))
            && move_dst(tail[k]) != dst by {
            lemma_subset_member(drop_lsb(att), att, move_dst(tail[k]));
            assert(!has_square(square_bb(dst), move_dst(tail[k])));
        }
        assert forall|i: int, j: int|
            0 <= i < s.len() && 0 <= j < s.len() && i != j implies s[i] != s[j] by {
            if i < head.len() && j < head.len() {
            } else if i < head.len() {
                assert(s[i] == head[i] && s[j] == tail[j - head.len()]);
                assert(move_dst(s[i]) == dst && move_dst(s[j]) != dst);
            } else if j < head.len() {
                assert(s[j] == head[j] && s[i] == tail[i - head.len()]);
                assert(move_dst(s[j]) == dst && move_dst(s[i]) != dst);
            } else {
                assert(s[i] == tail[i - head.len()] && s[j] == tail[j - head.len()]);
            }
        }
    }
}

/// The drain of one piece kind's bitboard emits pairwise-distinct words,
/// all carrying that piece, a source from the bitboard, and no castling
/// flag.
proof fn lemma_piece_moves_distinct(m: BoardModel, piece: Piece, bb: u64)
    ensures
        piece_moves_from(m, piece, bb).no_duplicates(),
        forall|k: int|
            0 <= k < piece_moves_from(m, piece, bb).len() ==> move_piece(
                #[trigger] piece_moves_from(m, piece, bb)[k],
            ) == piece && has_square(bb, move_src(piece_moves_from(m, piece, bb)[k]))
                && !move_is_castling(piece_moves_from(m, piece, bb)[k]),
    decreases bb,
{
    broadcast use crate::bitboard::lemma_square_bb_member, crate::bitboard::lemma_diff_member;

    if bb != 0 {
        lemma_popcount_drop_lsb(bb);
        lemma_lsb_is_trailing_zeros(bb);
        crate::bitboard::lemma_and_self(bb);
        let src = u64_trailing_zeros(bb) as i32;
        lemma_subset_member(bb, bb, src);
        lemma_drain_targets_distinct(
            piece,
            src,
            attack_set_of(piece, src, m.occupancies[2]),
            own_occ(m),
            enemy_occ(m),
        );
        lemma_piece_moves_distinct(m, piece, drop_lsb(bb));
        let head = drain_targets(
            piece,
            src,
            attack_set_of(piece, src, m.occupancies[2]),
            own_occ(m),
            enemy_occ(m),
        );
        let tail = piece_moves_from(m, piece, drop_lsb(bb));
        let s = piece_moves_from(m, piece, bb);
        assert(s == head + tail);
        assert forall|k: int| 0 <= k < tail.len() implies has_square(bb, move_src(tail[k]))
            && move_src(tail[k]) != src by {
            lemma_subset_member(drop_lsb(bb), bb, move_src(tail[k]));
            assert(!has_square(square_bb(src), move_src(tail[k])));
        }
        assert forall|i: int, j: int|
            0 <= i < s.len() && 0 <= j < s.len() && i != j implies s[i] != s[j] by {
            if i < head.len() && j < head.len() {
                assert(s[i] == head[i] && s[j] == head[j]);
            } else if i < head.len() {
                assert(s[i] == head[i] && s[j] == tail[j - head.len()]);
                assert(move_src(s[i]) == src && move_src(s[j]) != src);
            } else if j < head.len() {
                assert(s[j] == head[j] && s[i] == tail[i - head.len()]);
                assert(move_src(s[j]) == src && move_src(s[i]) != src);
            } else {
                assert(s[i] == tail[i - head.len()] && s[j] == tail[j - head.len()]);
            }
        }
    }
}

} // verus!

verus! {

/// One pawn's pushes are pairwise distinct: the promotion words differ in
/// their promotion piece, the double push differs in destination and flag.
/// All stay on the pawn's file.
proof fn lemma_pawn_pushes_distinct(m: BoardModel, src: i32)
    requires
        0 <= src < 64,
    ensures
        pawn_push_targets(m, src).no_duplicates(),
        forall|k: int|
            0 <= k < pawn_push_targets(m, src).len() ==> move_piece(
                #[trigger] pawn_push_targets(m, src)[k],
            ) == Piece::Pawn && move_src(pawn_push_targets(m, src)[k]) == src && move_dst(
                pawn_push_targets(m, src)[k],
            ) % 8 == src % 8 && !move_is_castling(pawn_push_targets(m, src)[k]),
{
    let side = m.side_to_move;
    let dst = (src + push_delta(side)) as i32;
    let ddst = (src + 2 * push_delta(side)) as i32;
    if 0 <= src + push_delta(side) < 64 && !has_square(m.occupancies[2], dst) {
        lemma_move_round_trip(Piece::Pawn, src, dst, Piece::Knight, false, false, false, false);
        lemma_move_round_trip(Piece::Pawn, src, dst, Piece::Bishop, false, false, false, false);
        lemma_move_round_trip(Piece::Pawn, src, dst, Piece::Rook, false, false, false, false);
        lemma_move_round_trip(Piece::Pawn, src, dst, Piece::Queen, false, false, false, false);
        lemma_move_round_trip(Piece::Pawn, src, dst, Piece::Pawn, false, false, false, false);
        if src / 8 == start_rank_of(side) && !has_square(m.occupancies[2], ddst) {
            lemma_move_round_trip(Piece::Pawn, src, ddst, Piece::Pawn, false, true, false, false);
        }
    }
}

/// One pawn-attack destination's captures are pairwise distinct, and all
/// words carry the pawn, its source, and that destination.
proof fn lemma_pawn_cap_targets_distinct(m: BoardModel, src: i32, dst: i32)
    requires
        0 <= src < 64,
        0 <= dst < 64,
    ensures
        pawn_cap_targets(m, src, dst).no_duplicates(),
        forall|k: int|
            0 <= k < pawn_cap_targets(m, src, dst).len() ==> move_piece(
                #[trigger] pawn_cap_targets(m, src, dst)[k],
            ) == Piece::Pawn && move_src(pawn_cap_targets(m, src, dst)[k]) == src && move_dst(
                pawn_cap_targets(m, src, dst)[k],
            ) == dst && !move_is_castling(pawn_cap_targets(m, src, dst)[k]),
{
    lemma_move_round_trip(Piece::Pawn, src, dst, Piece::Knight, true, false, false, false);
    lemma_move_round_trip(Piece::Pawn, src, dst, Piece::Bishop, true, false, false, false);
    lemma_move_round_trip(Piece::Pawn, src, dst, Piece::Rook, true, false, false, false);
    lemma_move_round_trip(Piece::Pawn, src, dst, Piece::Queen, true, false, false, false);
    lemma_move_round_trip(Piece::Pawn, src, dst, Piece::Pawn, true, false, false, false);
    lemma_move_round_trip(Piece::Pawn, src, dst, Piece::Pawn, false, false, true, false);
}

/// The drain of one pawn's attack set emits pairwise-distinct capture
/// words, each on a destination from the set.
proof fn lemma_pawn_caps_distinct(m: BoardModel, src: i32, att: u64)
    requires
        0 <= src < 64,
    ensures
        pawn_caps_from(m, src, att).no_duplicates(),
        forall|k: int|
            0 <= k < pawn_caps_from(m, src, att).len() ==> move_piece(
                #[trigger] pawn_caps_from(m, src, att)[k],
            ) == Piece::Pawn && move_src(pawn_caps_from(m, src, att)[k]) == src && has_square(
                att,
                move_dst(pawn_caps_from(m, src, att)[k]),
            ) && !move_is_castling(pawn_caps_from(m, src, att)[k]),
    decreases att,
{
    broadcast use crate::bitboard::lemma_square_bb_member, crate::bitboard::lemma_diff_member;

    if att != 0 {
        lemma_popcount_drop_lsb(att);
        lemma_lsb_is_trailing_zeros(att);
        crate::bitboard::lemma_and_self(att);
        let dst = u64_trailing_zeros(att) as i32;
        lemma_subset_member(att, att, dst);
        lemma_pawn_cap_targets_distinct(m, src, dst);
        lemma_pawn_caps_distinct(m, src, drop_lsb(att));
        let head = pawn_cap_targets(m, src, dst);
        let tail = pawn_caps_from(m, src, drop_lsb(att));
        let s = pawn_caps_from(m, src, att);
        assert(s == head + tail);
        assert forall|k: int| 0 <= k < tail.len() implies has_square(att, move_dst(tail[k]))
            && move_dst(tail[k]) != dst by {
            lemma_subset_member(drop_lsb(att), att, move_dst(tail[k]));
            assert(!has_square(square_bb(dst), move_dst(tail[k])));
        }
        assert forall|i: int, j: int|
            0 <= i < s.len() && 0 <= j < s.len() && i != j implies s[i] != s[j] by {
            if i < head.len() && j < head.len() {
                assert(s[i] == head[i] && s[j] == head[j]);
            } else if i < head.len() {
                assert(s[i] == head[i] && s[j] == tail[j - head.len()]);
                assert(move_dst(s[i]) == dst && move_dst(s[j]) != dst);
            } else if j < head.len() {
                assert(s[j] == head[j] && s[i] == tail[i - head.len()]);
                assert(move_dst(s[j]) == dst && move_dst(s[i]) != dst);
            } else {
                assert(s[i] == tail[i - head.len()] && s[j] == tail[j - head.len()]);
            }
        }
    }
}

/// The whole pawn drain emits pairwise-distinct words: one pawn's pushes
/// stay on its file while its captures leave it, and different pawns have
/// different source squares.
proof fn lemma_pawn_moves_distinct(m: BoardModel, bb: u64)
    requires
        m.side_to_move != Side::Both,
    ensures
        pawn_moves_from(m, bb).no_duplicates(),
        forall|k: int|
            0 <= k < pawn_moves_from(m, bb).len() ==> move_piece(
                #[trigger] pawn_moves_from(m, bb)[k],
            ) == Piece::Pawn && has_square(bb, move_src(pawn_moves_from(m, bb)[k])),
    decreases bb,
{
    broadcast use crate::bitboard::lemma_square_bb_member, crate::bitboard::lemma_diff_member;

    if bb != 0 {
        lemma_popcount_drop_lsb(bb);
        lemma_lsb_is_trailing_zeros(bb);
        crate::bitboard::lemma_and_self(bb);
        let side = m.side_to_move;
        let src = u64_trailing_zeros(bb) as i32;
        lemma_subset_member(bb, bb, src);
        lemma_pawn_pushes_distinct(m, src);
        lemma_pawn_caps_distinct(m, src, pawn_attacks_bb(side, src));
        lemma_pawn_moves_distinct(m, drop_lsb(bb));
        let pushes = pawn_push_targets(m, src);
        let caps = pawn_caps_from(m, src, pawn_attacks_bb(side, src));
        let head = pushes + caps;
        let tail = pawn_moves_from(m, drop_lsb(bb));
        let s = pawn_moves_from(m, bb);
        assert(s == head + tail);
        // a capture leaves the pawn's file, a push keeps it
        assert forall|k: int| 0 <= k < caps.len() implies move_dst(caps[k]) % 8 != src % 8 by {
            crate::bitboard::lemma_member_in_range(
                pawn_attacks_bb(side, src),
                move_dst(caps[k]),
            );
            crate::attacks::lemma_pawn_attack_rank(side, src, move_dst(caps[k]));
        }
        assert(head.no_duplicates()) by {
            assert forall|i: int, j: int|
                0 <= i < head.len() && 0 <= j < head.len() && i != j implies head[i] != head[j] by {
                if i < pushes.len() && j < pushes.len() {
                } else if i < pushes.len() {
                    assert(head[i] == pushes[i] && head[j] == caps[j - pushes.len()]);
                    assert(move_dst(head[i]) % 8 == src % 8 && move_dst(head[j]) % 8 != src % 8);
                } else if j < pushes.len() {
                    assert(head[j] == pushes[j] && head[i] == caps[i - pushes.len()]);
                    assert(move_dst(head[j]) % 8 == src % 8 && move_dst(head[i]) % 8 != src % 8);
                } else {
                    assert(head[i] == caps[i - pushes.len()] && head[j] == caps[j - pushes.len()]);
                }
            }
        }
        assert forall|k: int| 0 <= k < tail.len() implies has_square(bb, move_src(tail[k]))
            && move_src(tail[k]) != src by {
            lemma_subset_member(drop_lsb(bb), bb, move_src(tail[k]));
            assert(!has_square(square_bb(src), move_src(tail[k])));
        }
        assert forall|i: int, j: int|
            0 <= i < s.len() && 0 <= j < s.len() && i != j implies s[i] != s[j] by {
            if i < head.len() && j < head.len() {
                assert(s[i] == head[i] && s[j] == head[j]);
            } else if i < head.len() {
                assert(s[i] == head[i] && s[j] == tail[j - head.len()]);
                assert(move_src(s[i]) == src && move_src(s[j]) != src);
            } else if j < head.len() {
                assert(s[j] == head[j] && s[i] == tail[i - head.len()]);
                assert(move_src(s[j]) == src && move_src(s[i]) != src);
            } else {
                assert(s[i] == tail[i - head.len()] && s[j] == tail[j - head.len()]);
            }
        }
    }
}

/// The two castling words are distinct (their destinations differ), and
/// both carry the king with the castling flag.
proof fn lemma_castles_distinct(m: BoardModel)
    ensures
        castle_moves_seq(m).no_duplicates(),
        forall|k: int|
            0 <= k < castle_moves_seq(m).len() ==> move_piece(#[trigger] castle_moves_seq(m)[k])
                == Piece::King && move_is_castling(castle_moves_seq(m)[k]),
{
    let side = m.side_to_move;
    let home: i32 = if side == Side::White {
        60
    } else {
        4
    };
    lemma_move_round_trip(Piece::King, home, (home + 2) as i32, Piece::Pawn, false, false, false, true);
    lemma_move_round_trip(Piece::King, home, (home - 2) as i32, Piece::Pawn, false, false, false, true);
}

/// The king's stepping drain emits pairwise-distinct words, all carrying
/// the king without the castling flag.
proof fn lemma_king_targets_distinct(m: BoardModel, src: i32, att: u64)
    requires
        0 <= src < 64,
    ensures
        king_targets_from(m, src, att).no_duplicates(),
        forall|k: int|
            0 <= k < king_targets_from(m, src, att).len() ==> move_piece(
                #[trigger] king_targets_from(m, src, att)[k],
            ) == Piece::King && has_square(att, move_dst(king_targets_from(m, src, att)[k]))
                && !move_is_castling(king_targets_from(m, src, att)[k]),
    decreases att,
{
    broadcast use crate::bitboard::lemma_square_bb_member, crate::bitboard::lemma_diff_member;

    if att != 0 {
        lemma_popcount_drop_lsb(att);
        lemma_lsb_is_trailing_zeros(att);
        crate::bitboard::lemma_and_self(att);
        let dst = u64_trailing_zeros(att) as i32;
        lemma_subset_member(att, att, dst);
        lemma_move_round_trip(Piece::King, src, dst, Piece::Pawn, true, false, false, false);
        lemma_move_round_trip(Piece::King, src, dst, Piece::Pawn, false, false, false, false);
        lemma_king_targets_distinct(m, src, drop_lsb(att));
        let head = if square_attacked_spec(m, dst, opponent_of(m.side_to_move)) {
            Seq::<i32>::empty()
        } else {
            capture_or_quiet(Piece::King, src, dst, own_occ(m), enemy_occ(m))
        };
        let tail = king_targets_from(m, src, drop_lsb(att));
        let s = king_targets_from(m, src, att);
        assert(s == head + tail);
        assert forall|k: int| 0 <= k < tail.len() implies has_square(att, move_dst(tail[k]))
            && move_dst(tail[k]) != dst by {
            lemma_subset_member(drop_lsb(att), att, move_dst(tail[k]));
            assert(!has_square(square_bb(dst), move_dst(tail[k])));
        }
        assert forall|i: int, j: int|
            0 <= i < s.len() && 0 <= j < s.len() && i != j implies s[i] != s[j] by {
            if i < head.len() && j < head.len() {
            } else if i < head.len() {
                assert(s[i] == head[i] && s[j] == tail[j - head.len()]);
                assert(move_dst(s[i]) == dst && move_dst(s[j]) != dst);
            } else if j < head.len() {
                assert(s[j] == head[j] && s[i] == tail[i - head.len()]);
                assert(move_dst(s[j]) == dst && move_dst(s[i]) != dst);
            } else {
                assert(s[i] == tail[i - head.len()] && s[j] == tail[j - head.len()]);
            }
        }
    }
}

} // verus!

verus! {

/// The generated sequence holds no move word twice: within a group the
/// sources and destinations drain in strict order (and promotion words
/// differ in their promotion piece), and across groups the moving piece or
/// the castling flag differs.
proof fn lemma_generate_moves_distinct(m: BoardModel)
    requires
        m.side_to_move != Side::Both,
    ensures
        generate_moves_spec(m).no_duplicates(),
{
    let s1 = pawn_moves_seq(m);
    let s2 = castle_moves_seq(m);
    let s3 = piece_moves_seq(m, Piece::Knight);
    let s4 = piece_moves_seq(m, Piece::Bishop);
    let s5 = piece_moves_seq(m, Piece::Rook);
    let s6 = piece_moves_seq(m, Piece::Queen);
    let s7 = king_moves_seq(m);
    lemma_pawn_moves_distinct(m, m.pieces[sided_piece_idx(Piece::Pawn, m.side_to_move)]);
    lemma_castles_distinct(m);
    lemma_piece_moves_distinct(m, Piece::Knight, m.pieces[sided_piece_idx(Piece::Knight, m.side_to_move)]);
    lemma_piece_moves_distinct(m, Piece::Bishop, m.pieces[sided_piece_idx(Piece::Bishop, m.side_to_move)]);
    lemma_piece_moves_distinct(m, Piece::Rook, m.pieces[sided_piece_idx(Piece::Rook, m.side_to_move)]);
    lemma_piece_moves_distinct(m, Piece::Queen, m.pieces[sided_piece_idx(Piece::Queen, m.side_to_move)]);
    let kbb = m.pieces[sided_piece_idx(Piece::King, m.side_to_move)];
    if kbb != 0 {
        lemma_lsb_is_trailing_zeros(kbb);
        lemma_king_targets_distinct(
            m,
            u64_trailing_zeros(kbb) as i32,
            king_attacks_bb(u64_trailing_zeros(kbb) as i32),
        );
    }
    assert(forall|k: int| 0 <= k < s1.len() ==> move_group(#[trigger] s1[k]) == 0);
    assert(forall|k: int| 0 <= k < s2.len() ==> move_group(#[trigger] s2[k]) == 1);
    assert(forall|k: int| 0 <= k < s3.len() ==> move_group(#[trigger] s3[k]) == 2);
    assert(forall|k: int| 0 <= k < s4.len() ==> move_group(#[trigger] s4[k]) == 3);
    assert(forall|k: int| 0 <= k < s5.len() ==> move_group(#[trigger] s5[k]) == 4);
    assert(forall|k: int| 0 <= k < s6.len() ==> move_group(#[trigger] s6[k]) == 5);
    assert(forall|k: int| 0 <= k < s7.len() ==> move_group(#[trigger] s7[k]) == 6);

    let s = generate_moves_spec(m);
    let n1 = s1.len() as int;
    let n2 = n1 + s2.len();
    let n3 = n2 + s3.len();
    let n4 = n3 + s4.len();
    let n5 = n4 + s5.len();
    let n6 = n5 + s6.len();
    assert forall|i: int, j: int|
        0 <= i < s.len() && 0 <= j < s.len() && i != j implies s[i] != s[j] by {
        let gi: int = if i < n1 {
            0
        } else if i < n2 {
            1
        } else if i < n3 {
            2
        } else if i < n4 {
            3
        } else if i < n5 {
            4
        } else if i < n6 {
            5
        } else {
            6
        };
        let gj: int = if j < n1 {
            0
        } else if j < n2 {
            1
        } else if j < n3 {
            2
        } else if j < n4 {
            3
        } else if j < n5 {
            4
        } else if j < n6 {
            5
        } else {
            6
        };
        if i < n1 {
            assert(s[i] == s1[i]);
        } else if i < n2 {
            assert(s[i] == s2[i - n1]);
        } else if i < n3 {
            assert(s[i] == s3[i - n2]);
        } else if i < n4 {
            assert(s[i] == s4[i - n3]);
        } else if i < n5 {
            assert(s[i] == s5[i - n4]);
        } else if i < n6 {
            assert(s[i] == s6[i - n5]);
        } else {
            assert(s[i] == s7[i - n6]);
        }
        if j < n1 {
            assert(s[j] == s1[j]);
        } else if j < n2 {
            assert(s[j] == s2[j - n1]);
        } else if j < n3 {
            assert(s[j] == s3[j - n2]);
        } else if j < n4 {
            assert(s[j] == s4[j - n3]);
        } else if j < n5 {
            assert(s[j] == s5[j - n4]);
        } else if j < n6 {
            assert(s[j] == s6[j - n5]);
        } else {
            assert(s[j] == s7[j - n6]);
        }
        if gi != gj {
            assert(move_group(s[i]) == gi && move_group(s[j]) == gj);
        }
    }
}

/// A move the legality filter keeps was in the filtered sequence.
proof fn lemma_filter_legal_sub(m: BoardModel, s: Seq<i32>)
    ensures
        forall|k: int|
            0 <= k < filter_legal(m, s).len() ==> s.contains(#[trigger] filter_legal(m, s)[k]),
    decreases s.len(),
{
    if s.len() != 0 {
        lemma_filter_legal_sub(m, s.drop_last());
        let head = filter_legal(m, s.drop_last());
        assert forall|k: int|
            0 <= k < filter_legal(m, s).len() implies s.contains(
            #[trigger] filter_legal(m, s)[k],
        ) by {
            if k < head.len() {
                assert(filter_legal(m, s)[k] == head[k]);
                let k0 = choose|k0: int| 0 <= k0 < s.drop_last().len() && s.drop_last()[k0] == head[k];
                assert(s[k0] == head[k]);
            } else {
                assert(filter_legal(m, s)[k] == s.last());
            }
        }
    }
}

/// Filtering a duplicate-free sequence keeps it duplicate-free.
proof fn lemma_filter_legal_distinct(m: BoardModel, s: Seq<i32>)
    requires
        s.no_duplicates(),
    ensures
        filter_legal(m, s).no_duplicates(),
    decreases s.len(),
{
    if s.len() != 0 {
        lemma_filter_legal_distinct(m, s.drop_last());
        lemma_filter_legal_sub(m, s.drop_last());
        let head = filter_legal(m, s.drop_last());
        let f = filter_legal(m, s);
        // the kept last element appears nowhere among the earlier keeps
        assert forall|k: int| 0 <= k < head.len() implies head[k] != s.last() by {
            let k0 = choose|k0: int| 0 <= k0 < s.drop_last().len() && s.drop_last()[k0] == head[k];
            assert(s[k0] == head[k] && s[s.len() - 1] == s.last());
        }
        assert forall|i: int, j: int|
            0 <= i < f.len() && 0 <= j < f.len() && i != j implies f[i] != f[j] by {
            if i < head.len() && j < head.len() {
                assert(f[i] == head[i] && f[j] == head[j]);
            } else if i < head.len() {
                assert(f[i] == head[i] && f[j] == s.last());
            } else if j < head.len() {
                assert(f[j] == head[j] && f[i] == s.last());
            }
        }
    }
}

} // verus!
