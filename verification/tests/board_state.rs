use bitchess::attacks::Attacks;
use bitchess::fens::{
    BACKRANK_MATE_FEN, CASTLE_MATE_FEN, EMPTY_BOARD_FEN, EPAULETTE_MATE_FEN, LADDER_MATE_FEN,
    PILLSBURY_MATE_FEN, SCOTCH_GAME_FEN, STARTING_BOARD_FEN,
};
use bitchess::board::{Board, Piece, Side};
use bitchess::move_generator::{generate_moves, Move};
use bitchess::squares::{e1, e4, g1, NO_SQUARE};

const START: &str = "rnbqkbnr/pppppppp/8/8/8/8/PPPPPPPP/RNBQKBNR w KQkq - 0 1";

fn occupancies_coherent(board: &Board) {
    let mut white = 0u64;
    let mut black = 0u64;
    for i in 0..6 {
        white |= board.pieces[i];
        black |= board.pieces[i + 6];
    }
    assert_eq!(board.occupancies[0], white);
    assert_eq!(board.occupancies[1], black);
    assert_eq!(board.occupancies[2], white | black);
}

fn at_most_one_piece_per_square(board: &Board) {
    for square in 0..64 {
        let mut holders = 0;
        for i in 0..12 {
            if board.pieces[i] & (1u64 << square) != 0 {
                holders += 1;
            }
        }
        assert!(holders <= 1);
    }
}

#[test]
fn start_position_parses_exactly() {
    let board = Board::from_fen(START).unwrap();
    assert_eq!(board.pieces[0], 0x00FF_0000_0000_0000); // white pawns
    assert_eq!(board.pieces[3], (1u64 << 56) | (1u64 << 63)); // white rooks
    assert_eq!(board.pieces[5], 1u64 << 60); // white king on e1
    assert_eq!(board.pieces[6], 0xFF00); // black pawns
    assert_eq!(board.pieces[11], 1u64 << 4); // black king on e8
    assert_eq!(board.castling_rights, 0b1111);
    assert_eq!(board.en_passant_square, NO_SQUARE);
    assert!(matches!(board.side_to_move, Side::White));
    occupancies_coherent(&board);
}

#[test]
fn known_positions_parse() {
    for fen in [
        EMPTY_BOARD_FEN,
        STARTING_BOARD_FEN,
        SCOTCH_GAME_FEN,
        EPAULETTE_MATE_FEN,
        BACKRANK_MATE_FEN,
        LADDER_MATE_FEN,
        CASTLE_MATE_FEN,
        PILLSBURY_MATE_FEN,
    ] {
        let board = Board::from_fen(fen).unwrap();
        occupancies_coherent(&board);
        at_most_one_piece_per_square(&board);
    }
    // the Scotch game FEN records a d3 en-passant square
    let board = Board::from_fen(SCOTCH_GAME_FEN).unwrap();
    assert_eq!(board.en_passant_square, 43);
}

#[test]
fn malformed_fens_are_rejected() {
    assert!(Board::from_fen("").is_none());
    assert!(Board::from_fen("rnbqkbnr/pppppppp/8/8").is_none()); // fields missing
    assert!(Board::from_fen("8/8/8/8/8/8/8/8 x - - 0 1").is_none()); // bad side
    assert!(Board::from_fen("8/8/8/8/8/8/8/8/8 w - - 0 1").is_none()); // rank overflow
    assert!(Board::from_fen("8/8/8/8/8/8/8/9 w - - 0 1").is_none()); // bad digit
    assert!(Board::from_fen("8/8/8/8/8/8/8/8 w Kx - 0 1").is_none()); // bad right
    assert!(Board::from_fen("8/8/8/8/8/8/8/8 w - e4 0 1").is_none()); // bad ep rank
    assert!(Board::from_fen("8/8/8/8/8/8/8/8 w - e3 0 1").is_none()); // no passed pawn
    assert!(Board::from_fen("8/8/8/8/4P3/8/8/8 w - e3 0 1").is_none()); // wrong side to capture
    assert!(Board::from_fen("8/8/8/8/4P3/8/8/8 b - e3 0 1").is_some()); // coherent ep square
    assert!(Board::from_fen("P7/8/8/8/8/8/8/8 w - - 0 1").is_none()); // pawn on the top rank
    assert!(Board::from_fen("8/8/8/8/8/8/8/P7 w - - 0 1").is_none()); // pawn on the bottom rank
    assert!(Board::from_fen("8/8/8/8/8/8/8/8 w K - 0 1").is_none()); // right without king and rook
    assert!(Board::from_fen("8/8/8/8/8/8/8/4K2R w K - 0 1").is_some()); // coherent right
}

#[test]
fn double_push_opens_en_passant() {
    let mut board = Board::from_fen(START).unwrap();
    let mv = Move::encode_double_push(Piece::Pawn, 52, e4); // e2-e4
    let before = board.play_move(mv);
    assert_eq!(before.en_passant_square, NO_SQUARE);
    assert_eq!(board.en_passant_square, 44); // e3, the crossed square
    assert!(matches!(board.side_to_move, Side::Black));
    assert_eq!(board.pieces[0] & (1u64 << 52), 0);
    assert_ne!(board.pieces[0] & (1u64 << e4), 0);
    occupancies_coherent(&board);
    at_most_one_piece_per_square(&board);
}

#[test]
fn capture_removes_the_victim() {
    // white pawn e4 takes black pawn d5
    let mut board = Board::from_fen("8/8/8/3p4/4P3/8/8/8 w - - 0 1").unwrap();
    let d5 = 27;
    let mv = Move::encode_capture(Piece::Pawn, e4, d5);
    board.play_move(mv);
    assert_eq!(board.pieces[6], 0); // black pawn gone
    assert_eq!(board.pieces[0], 1u64 << d5);
    occupancies_coherent(&board);
    at_most_one_piece_per_square(&board);
}

#[test]
fn en_passant_removes_the_passed_pawn() {
    // black just played d7-d5; white captures e5xd6 en passant
    let mut board = Board::from_fen("8/8/8/3pP3/8/8/8/8 w - d6 0 1").unwrap();
    let e5 = 28;
    let d6 = 19;
    let mv = Move::encode_en_passant(Piece::Pawn, e5, d6);
    board.play_move(mv);
    assert_eq!(board.pieces[6], 0); // the d5 pawn is gone
    assert_eq!(board.pieces[0], 1u64 << d6);
    occupancies_coherent(&board);
}

#[test]
fn castling_carries_the_rook() {
    let mut board = Board::from_fen("8/8/8/8/8/8/8/4K2R w K - 0 1").unwrap();
    let mv = Move::encode_castling(Piece::King, e1, g1);
    board.play_move(mv);
    assert_eq!(board.pieces[5], 1u64 << g1);
    assert_eq!(board.pieces[3], 1u64 << 61); // rook on f1
    assert_eq!(board.castling_rights, 0);
    occupancies_coherent(&board);
    at_most_one_piece_per_square(&board);
}

#[test]
fn promotion_swaps_the_pawn() {
    let mut board = Board::from_fen("8/1P6/8/8/8/8/6p1/8 w - - 0 1").unwrap();
    let mv = Move::encode_promotion(Piece::Pawn, 9, 1, Piece::Queen, false);
    board.play_move(mv);
    assert_eq!(board.pieces[0], 0); // no white pawn left
    assert_eq!(board.pieces[4], 1u64 << 1); // queen on b8
    occupancies_coherent(&board);
}

#[test]
fn play_move_returns_the_prior_state() {
    let attacks = Attacks::new();
    let board = Board::from_fen(START).unwrap();
    let moves = generate_moves(&board, &attacks);
    for &mv in moves.moves() {
        let mut working = board;
        let prior = working.play_move(mv);
        // the returned state restores the position exactly
        assert_eq!(prior.pieces, board.pieces);
        assert_eq!(prior.occupancies, board.occupancies);
        assert_eq!(prior.en_passant_square, board.en_passant_square);
        assert_eq!(prior.castling_rights, board.castling_rights);
        assert!(matches!(prior.side_to_move, Side::White));
    }
}

#[test]
fn coherence_holds_along_generated_play() {
    let attacks = Attacks::new();
    let mut board = Board::from_fen(START).unwrap();
    // walk a deterministic line: always play the first generated move
    for _ in 0..12 {
        let moves = generate_moves(&board, &attacks);
        assert!(moves.len() > 0);
        let mv = moves.moves()[0];
        board.play_move(mv);
        occupancies_coherent(&board);
        at_most_one_piece_per_square(&board);
    }
}
