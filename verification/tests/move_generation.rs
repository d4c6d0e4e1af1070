use bitchess::attacks::Attacks;
use bitchess::board::{Board, Piece, Side};
use bitchess::move_generator::{generate_moves, is_move_legal, is_square_attacked, Move, Moves};
use bitchess::squares::{f8, g8, h8};


const START: &str = "rnbqkbnr/pppppppp/8/8/8/8/PPPPPPPP/RNBQKBNR w KQkq - 0 1";

#[test]
fn move_list_grows_in_order() {
    let mut moves = Moves::new();
    assert_eq!(moves.len(), 0);
    moves.push(7);
    moves.push(9);
    assert_eq!(moves.len(), 2);
    assert_eq!(moves.moves(), &[7, 9]);
}

#[test]
fn empty_board_emits_no_moves() {
    let attacks = Attacks::new();
    let board = Board::from_fen("8/8/8/8/8/8/8/8 w - - 0 1").unwrap();
    let moves = generate_moves(&board, &attacks);
    assert_eq!(moves.len(), 0);
}

#[test]
fn start_position_emits_twenty_moves() {
    let attacks = Attacks::new();
    let board = Board::from_fen(START).unwrap();
    let moves = generate_moves(&board, &attacks);
    assert_eq!(moves.len(), 20);

    // the drain order is deterministic: the a2 pawn's push and double push
    // come first
    assert_eq!(Move::decode_src_square(moves.moves()[0]), 48);
    assert_eq!(Move::decode_dst_square(moves.moves()[0]), 40);
    assert_eq!(Move::decode_dst_square(moves.moves()[1]), 32);
    assert!(Move::is_double_push(moves.moves()[1]));

    let mut pawn_moves = 0;
    let mut double_pushes = 0;
    let mut knight_moves = 0;
    let mut castles = 0;
    for &mv in moves.moves() {
        match Move::decode_piece(mv) {
            Piece::Pawn => {
                pawn_moves += 1;
                if Move::is_double_push(mv) {
                    double_pushes += 1;
                }
            }
            Piece::Knight => knight_moves += 1,
            _ => {}
        }
        if Move::is_castling(mv) {
            castles += 1;
        }
        assert!(!Move::is_capture(mv));
    }
    assert_eq!(pawn_moves, 16);
    assert_eq!(double_pushes, 8);
    assert_eq!(knight_moves, 4);
    assert_eq!(castles, 0);
}

#[test]
fn promoting_pawn_emits_four_moves() {
    let attacks = Attacks::new();
    let board = Board::from_fen("8/1P6/8/8/8/8/6p1/8 w - - 0 1").unwrap();
    let moves = generate_moves(&board, &attacks);
    assert_eq!(moves.len(), 4);
    let mut promos = vec![];
    for &mv in moves.moves() {
        assert!(Move::is_promotion(mv));
        assert!(!Move::is_capture(mv));
        promos.push(Move::decode_promotion_piece(mv));
    }
    assert_eq!(promos, vec![Piece::Knight, Piece::Bishop, Piece::Rook, Piece::Queen]);
}

#[test]
fn en_passant_is_emitted_even_without_other_captures() {
    // lone white pawn beside the double-pushed black pawn: the only capture
    // available is the en-passant one
    let attacks = Attacks::new();
    let board = Board::from_fen("8/8/8/3pP3/8/8/8/8 w - d6 0 1").unwrap();
    let moves = generate_moves(&board, &attacks);
    let mut saw_en_passant = false;
    for &mv in moves.moves() {
        if Move::is_en_passant(mv) {
            saw_en_passant = true;
            assert_eq!(Move::decode_dst_square(mv), 19); // d6
        }
    }
    assert!(saw_en_passant);
}

#[test]
fn castling_respects_attacks_and_occupancy() {
    let attacks = Attacks::new();
    // both rights, clear path: two castling moves among the king's moves
    let board = Board::from_fen("8/8/8/8/8/8/8/R3K2R w KQ - 0 1").unwrap();
    let moves = generate_moves(&board, &attacks);
    let castles: Vec<i32> =
        moves.moves().iter().copied().filter(|&m| Move::is_castling(m)).collect();
    assert_eq!(castles.len(), 2);
    assert_eq!(Move::decode_dst_square(castles[0]), 62); // kingside first
    assert_eq!(Move::decode_dst_square(castles[1]), 58);

    // a rook aiming at f1 forbids the kingside castle only
    let board = Board::from_fen("5r2/8/8/8/8/8/8/R3K2R w KQ - 0 1").unwrap();
    let moves = generate_moves(&board, &attacks);
    let castles: Vec<i32> =
        moves.moves().iter().copied().filter(|&m| Move::is_castling(m)).collect();
    assert_eq!(castles.len(), 1);
    assert_eq!(Move::decode_dst_square(castles[0]), 58);
}

#[test]
fn pillsbury_mate_attack_queries() {
    let attacks = Attacks::new();
    let board = Board::from_fen("5rk1/5p1p/5p1B/8/8/8/8/K6R w - - 0 1").unwrap();
    // before the rook lift, White does not attack g8
    assert!(!is_square_attacked(&board, g8, Side::White, &attacks));
    let mut board = board;
    let mv = Move::encode(Piece::Rook, 63, h8);
    board.play_move(mv);
    // after Rh8 the rook attacks g8
    assert!(is_square_attacked(&board, g8, Side::White, &attacks));
    // the king on g8 keeps its own back-rank neighbour f8 covered
    assert!(is_square_attacked(&board, f8, Side::Black, &attacks));
}

#[test]
fn legality_filter_rejects_self_checks() {
    let attacks = Attacks::new();
    // the white king on e1 faces the black rook on e8; the d2 pawn is free
    // to advance, but the e-file pin never binds it — moving the king into
    // the rook's file stays illegal
    let board = Board::from_fen("4r3/8/8/8/8/8/3P4/3K4 w - - 0 1").unwrap();
    let moves = generate_moves(&board, &attacks);
    for &mv in moves.moves() {
        if Move::decode_piece(mv) == Piece::King {
            let legal = is_move_legal(&board, mv, &attacks);
            let dst = Move::decode_dst_square(mv);
            // stepping onto the e-file (file index 4) walks into the rook
            assert_eq!(legal, dst % 8 != 4);
        }
    }
}

#[test]
fn emitted_moves_are_pairwise_distinct() {
    let attacks = Attacks::new();
    let board =
        Board::from_fen("r3k2r/p1ppqpb1/bn2pnp1/3PN3/1p2P3/2N2Q1p/PPPBBPPP/R3K2R w KQkq - 0 1")
            .unwrap();
    let moves = generate_moves(&board, &attacks);
    let words = moves.moves();
    for i in 0..words.len() {
        for j in 0..i {
            assert_ne!(words[i], words[j]);
        }
    }
}

#[test]
fn attack_queries_mirror_with_the_board() {
    let attacks = Attacks::new();
    let board =
        Board::from_fen("r3k2r/p1ppqpb1/bn2pnp1/3PN3/1p2P3/2N2Q1p/PPPBBPPP/R3K2R w KQkq - 0 1")
            .unwrap();
    // flip the board top to bottom and hand each piece set to the other colour
    let mut mirrored = board;
    for i in 0..6 {
        mirrored.pieces[i] = board.pieces[i + 6].swap_bytes();
        mirrored.pieces[i + 6] = board.pieces[i].swap_bytes();
    }
    mirrored.occupancies[0] = board.occupancies[1].swap_bytes();
    mirrored.occupancies[1] = board.occupancies[0].swap_bytes();
    mirrored.occupancies[2] = board.occupancies[2].swap_bytes();
    mirrored.side_to_move = Side::Black;

    for square in 0..64 {
        for (side, swapped) in [(Side::White, Side::Black), (Side::Black, Side::White)] {
            assert_eq!(
                is_square_attacked(&board, square, side, &attacks),
                is_square_attacked(&mirrored, square ^ 56, swapped, &attacks)
            );
        }
    }
}
