use bitchess::attacks::Attacks;
use bitchess::board::Board;
use bitchess::move_generator::generate_legal_moves;

const START: &str = "rnbqkbnr/pppppppp/8/8/8/8/PPPPPPPP/RNBQKBNR w KQkq - 0 1";
const KIWIPETE: &str = "r3k2r/p1ppqpb1/bn2pnp1/3PN3/1p2P3/2N2Q1p/PPPBBPPP/R3K2R w KQkq - 0 1";

fn perft(board: &Board, attacks: &Attacks, depth: u32) -> u64 {
    if depth == 0 {
        return 1;
    }
    let moves = generate_legal_moves(board, attacks);
    if depth == 1 {
        return moves.len() as u64;
    }
    let mut count = 0u64;
    for &mv in moves.moves() {
        let mut next = *board;
        next.play_move(mv);
        count += perft(&next, attacks, depth - 1);
    }
    count
}

#[test]
fn perft_start_shallow() {
    let attacks = Attacks::new();
    let board = Board::from_fen(START).unwrap();
    assert_eq!(perft(&board, &attacks, 1), 20);
    assert_eq!(perft(&board, &attacks, 2), 400);
    assert_eq!(perft(&board, &attacks, 3), 8_902);
}

#[test]
fn perft_start_depth_four() {
    let attacks = Attacks::new();
    let board = Board::from_fen(START).unwrap();
    assert_eq!(perft(&board, &attacks, 4), 197_281);
}

#[test]
fn perft_kiwipete_shallow() {
    let attacks = Attacks::new();
    let board = Board::from_fen(KIWIPETE).unwrap();
    assert_eq!(perft(&board, &attacks, 1), 48);
    assert_eq!(perft(&board, &attacks, 2), 2_039);
}

#[test]
fn perft_kiwipete_depth_three() {
    let attacks = Attacks::new();
    let board = Board::from_fen(KIWIPETE).unwrap();
    assert_eq!(perft(&board, &attacks, 3), 97_862);
}
