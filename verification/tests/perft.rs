use rustic::board::Board;
use rustic::fen::{fen_read, FEN_START_POSITION};
use rustic::move_boards::MoveBoard;
use rustic::movegen::gen::all_moves;
use rustic::movegen::movedefs::MoveList;

const KIWIPETE: &str = "r3k2r/p1ppqpb1/bn2pnp1/3PN3/1p2P3/2N2Q1p/PPPBBPPP/R3K2R w KQkq - 0 1";

fn setup(fen: &str) -> Board {
    let mut board = Board::new();
    assert_eq!(fen_read(fen, &mut board), Ok(()));
    board
}

fn perft(board: &mut Board, mb: &MoveBoard, depth: u8) -> u64 {
    if depth == 0 {
        return 1;
    }
    let mut list = MoveList::new();
    all_moves(board, mb, &mut list);
    let mut nodes = 0;
    for i in 0..list.len() {
        let m = list.get_move(i);
        if board.make(m, mb) {
            nodes += perft(board, mb, depth - 1);
        }
        board.unmake();
    }
    nodes
}

#[test]
fn perft_start_position() {
    let mb = MoveBoard::new();
    let mut board = setup(FEN_START_POSITION);
    assert_eq!(perft(&mut board, &mb, 1), 20);
    assert_eq!(perft(&mut board, &mb, 2), 400);
    assert_eq!(perft(&mut board, &mb, 3), 8902);
}

#[test]
fn perft_kiwipete() {
    let mb = MoveBoard::new();
    let mut board = setup(KIWIPETE);
    assert_eq!(perft(&mut board, &mb, 1), 48);
    assert_eq!(perft(&mut board, &mb, 2), 2039);
    assert_eq!(perft(&mut board, &mb, 3), 97862);
}

#[test]
fn perft_en_passant_and_promotion() {
    let mb = MoveBoard::new();
    let mut board = setup("8/2p5/3p4/KP5r/1R3p1k/8/4P1P1/8 w - - 0 1");
    assert_eq!(perft(&mut board, &mb, 1), 14);
    assert_eq!(perft(&mut board, &mb, 2), 191);
    assert_eq!(perft(&mut board, &mb, 3), 2812);
    assert_eq!(perft(&mut board, &mb, 4), 43238);
    let mut board = setup("r3k2r/Pppp1ppp/1b3nbN/nP6/BBP1P3/q4N2/Pp1P2PP/R2Q1RK1 w kq - 0 1");
    assert_eq!(perft(&mut board, &mb, 1), 6);
    assert_eq!(perft(&mut board, &mb, 2), 264);
    assert_eq!(perft(&mut board, &mb, 3), 9467);
}
