use bitchess::attacks::Attacks;
use bitchess::board::Board;
use bitchess::move_generator::generate_legal_moves;

const START: &str = "rnbqkbnr/pppppppp/8/8/8/8/PPPPPPPP/RNBQKBNR w KQkq - 0 1";

fn perft(board: &Board, attacks: &Attacks, depth: u32) -> u64 {
    if depth == 0 {
        return 1;
    }
    let moves = generate_legal_moves(board, attacks);
    if depth == 1 {
        return moves.len() as u64;
    }
    let mut count = 0u64;
    for &mv in moves.moves() {
        let mut next = *board;
        next.play_move(mv);
        count += perft(&next, attacks, depth - 1);
    }
    count
}

#[test]
fn perft_start_depth_five() {
    let attacks = Attacks::new();
    let board = Board::from_fen(START).unwrap();
    assert_eq!(perft(&board, &attacks, 5), 4_865_609);
}
