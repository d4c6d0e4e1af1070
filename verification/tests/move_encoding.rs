use bitchess::board::Piece;
use bitchess::move_generator::Move;

#[test]
fn quiet_move_round_trip() {
    let mv = Move::encode(Piece::Knight, 57, 40);
    assert_eq!(Move::decode_src_square(mv), 57);
    assert_eq!(Move::decode_dst_square(mv), 40);
    assert_eq!(Move::decode_piece(mv), Piece::Knight);
    assert_eq!(Move::decode_promotion_piece(mv), Piece::Pawn);
    assert!(!Move::is_capture(mv));
    assert!(!Move::is_promotion(mv));
    assert!(!Move::is_double_push(mv));
    assert!(!Move::is_en_passant(mv));
    assert!(!Move::is_castling(mv));
}

#[test]
fn capture_round_trip() {
    let mv = Move::encode_capture(Piece::Queen, 0, 63);
    assert_eq!(Move::decode_src_square(mv), 0);
    assert_eq!(Move::decode_dst_square(mv), 63);
    assert_eq!(Move::decode_piece(mv), Piece::Queen);
    assert!(Move::is_capture(mv));
    assert!(!Move::is_promotion(mv));
}

#[test]
fn flagged_moves_round_trip() {
    let dp = Move::encode_double_push(Piece::Pawn, 52, 36);
    assert!(Move::is_double_push(dp));
    assert!(!Move::is_capture(dp));
    assert_eq!(Move::decode_src_square(dp), 52);
    assert_eq!(Move::decode_dst_square(dp), 36);

    let ep = Move::encode_en_passant(Piece::Pawn, 27, 20);
    assert!(Move::is_en_passant(ep));
    assert!(!Move::is_capture(ep));

    let castle = Move::encode_castling(Piece::King, 60, 62);
    assert!(Move::is_castling(castle));
    assert_eq!(Move::decode_dst_square(castle), 62);
}

#[test]
fn promotion_round_trip() {
    for (promo, with_capture) in [
        (Piece::Knight, false),
        (Piece::Bishop, false),
        (Piece::Rook, true),
        (Piece::Queen, true),
    ] {
        let mv = Move::encode_promotion(Piece::Pawn, 9, 1, promo, with_capture);
        assert!(Move::is_promotion(mv));
        assert_eq!(Move::decode_promotion_piece(mv), promo);
        assert_eq!(Move::is_capture(mv), with_capture);
        assert_eq!(Move::decode_src_square(mv), 9);
        assert_eq!(Move::decode_dst_square(mv), 1);
        assert_eq!(Move::decode_piece(mv), Piece::Pawn);
    }
}
