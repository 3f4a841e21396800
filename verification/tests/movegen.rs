use rustic::board::Board;
use rustic::fen::{fen_read, FEN_START_POSITION};
use rustic::move_boards::MoveBoard;
use rustic::movegen::gen::all_moves;
use rustic::movegen::info::{king_attacked, square_attacked};
use rustic::movegen::movedefs::{Move, MoveList, NO_CAPTURE, NO_PROMOTION};

fn setup(fen: &str) -> Board {
    let mut board = Board::new();
    assert_eq!(fen_read(fen, &mut board), Ok(()));
    board
}

fn moves(board: &Board, mb: &MoveBoard) -> Vec<Move> {
    let mut list = MoveList::new();
    all_moves(board, mb, &mut list);
    (0..list.len()).map(|i| list.get_move(i)).collect()
}

#[test]
fn start_position_has_twenty_moves() {
    let mb = MoveBoard::new();
    let mut board = setup(FEN_START_POSITION);
    let list = moves(&board, &mb);
    assert_eq!(list.len(), 20);
    assert_eq!(list.iter().filter(|m| m.piece() == 5).count(), 16);
    assert_eq!(list.iter().filter(|m| m.piece() == 4).count(), 4);
    // After 1.e4 black has twenty moves too.
    let e4 = *list.iter().find(|m| m.from() == 12 && m.to() == 28).unwrap();
    assert!(board.make(e4, &mb));
    let list = moves(&board, &mb);
    assert_eq!(list.len(), 20);
    assert_eq!(list.iter().filter(|m| m.piece() == 5).count(), 16);
    assert_eq!(list.iter().filter(|m| m.piece() == 4).count(), 4);
}

#[test]
fn moves_come_in_the_order_of_generation() {
    let mb = MoveBoard::new();
    let board = setup(FEN_START_POSITION);
    let list = moves(&board, &mb);
    // Knights first, from b1 and then from g1, each to its lower square first;
    // then the pawns from a2 to h2, the single step before the double step.
    let squares: Vec<(u8, u8)> = list.iter().map(|m| (m.from(), m.to())).collect();
    let mut expected = vec![(1, 16), (1, 18), (6, 21), (6, 23)];
    for file in 0..8 {
        expected.push((8 + file, 16 + file));
        expected.push((8 + file, 24 + file));
    }
    assert_eq!(squares, expected);
    assert!(list.iter().all(|m| m.captured() == NO_CAPTURE && m.promoted() == NO_PROMOTION));
    assert!(list.iter().all(|m| m.double_step() == (m.to() - m.from() == 16)));
}

#[test]
fn generation_adds_to_the_list_and_leaves_the_board() {
    let mb = MoveBoard::new();
    let board = setup(FEN_START_POSITION);
    let key = board.game_state.zobrist_key;
    let mut list = MoveList::new();
    list.push(Move { data: 99 });
    all_moves(&board, &mb, &mut list);
    assert_eq!(list.len(), 21);
    assert_eq!(list.get_move(0).data, 99);
    all_moves(&board, &mb, &mut list);
    assert_eq!(list.len(), 41);
    assert_eq!(list.get_move(1), list.get_move(21));
    assert_eq!(board.game_state.zobrist_key, key);
    assert_eq!(board.history.len(), 0);
}

fn castles(board: &Board, mb: &MoveBoard) -> Vec<(u8, u8)> {
    moves(board, mb).iter().filter(|m| m.castling()).map(|m| (m.from(), m.to())).collect()
}

#[test]
fn castling_needs_the_squares_between_to_be_empty() {
    let mb = MoveBoard::new();
    // The knight still stands on g1.
    let board = setup("r3k2r/8/8/8/8/8/8/R3K1NR w KQkq - 0 1");
    assert_eq!(castles(&board, &mb), vec![(4, 2)]);
    // Without it the king can castle to both sides, the king's side first.
    let board = setup("r3k2r/8/8/8/8/8/8/R3K2R w KQkq - 0 1");
    assert_eq!(castles(&board, &mb), vec![(4, 6), (4, 2)]);
    let list = moves(&board, &mb);
    let last = list[list.len() - 1];
    assert!(last.castling() && last.piece() == 0 && last.captured() == NO_CAPTURE);
    // A piece on b1 blocks the queen's side though the king does not pass it.
    let board = setup("r3k2r/8/8/8/8/8/8/RN2K2R w KQkq - 0 1");
    assert_eq!(castles(&board, &mb), vec![(4, 6)]);
    let board = setup("r3k2r/8/8/8/8/8/8/R3K2R b KQkq - 0 1");
    assert_eq!(castles(&board, &mb), vec![(60, 62), (60, 58)]);
    let board = setup("rn2kb1r/8/8/8/8/8/8/R3K2R b KQkq - 0 1");
    assert_eq!(castles(&board, &mb), vec![]);
}

#[test]
fn castling_needs_the_right() {
    let mb = MoveBoard::new();
    let board = setup("r3k2r/8/8/8/8/8/8/R3K2R w Qk - 0 1");
    assert_eq!(castles(&board, &mb), vec![(4, 2)]);
    let board = setup("r3k2r/8/8/8/8/8/8/R3K2R b Qk - 0 1");
    assert_eq!(castles(&board, &mb), vec![(60, 62)]);
    let board = setup("r3k2r/8/8/8/8/8/8/R3K2R w - - 0 1");
    assert_eq!(castles(&board, &mb), vec![]);
}

#[test]
fn castling_needs_the_way_of_the_king_to_be_safe() {
    let mb = MoveBoard::new();
    // The rook on f8 attacks f1, which the king passes.
    let board = setup("4kr2/8/8/8/8/8/8/R3K2R w KQ - 0 1");
    assert_eq!(castles(&board, &mb), vec![(4, 2)]);
    // The rook on e8 gives check.
    let board = setup("4r1k1/8/8/8/8/8/8/R3K2R w KQ - 0 1");
    assert_eq!(castles(&board, &mb), vec![]);
    // The rook on g8 attacks the square on which the king lands: the move is
    // generated, and found to be illegal when it is made.
    let mut board = setup("6rk/8/8/8/8/8/8/R3K2R w KQ - 0 1");
    assert_eq!(castles(&board, &mb), vec![(4, 6), (4, 2)]);
    let short = *moves(&board, &mb).iter().find(|m| m.castling() && m.to() == 6).unwrap();
    assert!(!board.make(short, &mb));
    board.unmake();
    // The rook on b8 attacks b1, which the king does not pass.
    let board = setup("1r5k/8/8/8/8/8/8/R3K2R w KQ - 0 1");
    assert_eq!(castles(&board, &mb), vec![(4, 6), (4, 2)]);
}

#[test]
fn promotion_gives_four_moves() {
    let mb = MoveBoard::new();
    let board = setup("7k/4P3/8/8/8/8/8/K7 w - - 0 1");
    let list: Vec<Move> = moves(&board, &mb).into_iter().filter(|m| m.piece() == 5).collect();
    assert_eq!(list.len(), 4);
    let promoted: Vec<u8> = list.iter().map(|m| m.promoted()).collect();
    assert_eq!(promoted, vec![1, 2, 3, 4]);
    for m in &list {
        assert_eq!((m.from(), m.to(), m.captured()), (52, 60, NO_CAPTURE));
        assert!(!m.en_passant() && !m.double_step() && !m.castling());
        // The moves differ in the promotion field alone.
        assert_eq!(m.data & !(7 << 18), list[0].data & !(7 << 18));
    }
    // Black promotes on the first rank, also when it captures.
    let board = setup("7k/8/8/8/8/8/4p3/K2N1N2 b - - 0 1");
    let list: Vec<Move> = moves(&board, &mb).into_iter().filter(|m| m.piece() == 5).collect();
    assert_eq!(list.len(), 12);
    let targets: Vec<(u8, u8, u8)> =
        list.iter().map(|m| (m.to(), m.captured(), m.promoted())).collect();
    assert_eq!(targets[0..4], [(3, 4, 1), (3, 4, 2), (3, 4, 3), (3, 4, 4)]);
    assert_eq!(targets[4..8], [(4, 7, 1), (4, 7, 2), (4, 7, 3), (4, 7, 4)]);
    assert_eq!(targets[8..12], [(5, 4, 1), (5, 4, 2), (5, 4, 3), (5, 4, 4)]);
    // A blocked pawn does not promote.
    let board = setup("4n2k/4P3/8/8/8/8/8/K7 w - - 0 1");
    assert_eq!(moves(&board, &mb).iter().filter(|m| m.piece() == 5).count(), 0);
}

#[test]
fn pawns_push_capture_and_take_en_passant() {
    let mb = MoveBoard::new();
    let board = setup("4k3/8/8/3pP3/8/2n1n3/3P4/4K3 w - d6 0 1");
    let list: Vec<Move> = moves(&board, &mb).into_iter().filter(|m| m.piece() == 5).collect();
    let got: Vec<(u8, u8, u8, bool, bool)> = list
        .iter()
        .map(|m| (m.from(), m.to(), m.captured(), m.en_passant(), m.double_step()))
        .collect();
    assert_eq!(
        got,
        vec![
            (11, 18, 4, false, false),
            (11, 19, 7, false, false),
            (11, 20, 4, false, false),
            (11, 27, 7, false, true),
            (36, 43, 7, true, false),
            (36, 44, 7, false, false),
        ]
    );
    // A piece in front stops both steps; one two squares ahead stops the second.
    let board = setup("4k3/8/8/8/8/3n4/3P4/4K3 w - - 0 1");
    assert_eq!(moves(&board, &mb).iter().filter(|m| m.piece() == 5).count(), 0);
    let board = setup("4k3/8/8/8/3n4/8/3P4/4K3 w - - 0 1");
    assert_eq!(moves(&board, &mb).iter().filter(|m| m.piece() == 5).count(), 1);
    // Black moves down the board.
    let board = setup("4k3/3p4/8/8/8/8/8/4K3 b - - 0 1");
    let list: Vec<(u8, u8)> = moves(&board, &mb)
        .iter()
        .filter(|m| m.piece() == 5)
        .map(|m| (m.from(), m.to()))
        .collect();
    assert_eq!(list, vec![(51, 35), (51, 43)]);
}

#[test]
fn a_kind_without_pieces_adds_no_moves() {
    let mb = MoveBoard::new();
    let board = setup("4k3/8/8/8/8/8/8/4K3 w - - 0 1");
    let list = moves(&board, &mb);
    assert_eq!(list.len(), 5);
    assert!(list.iter().all(|m| m.piece() == 0));
    let board = setup("8/8/8/8/8/8/8/8 w - - 0 1");
    assert_eq!(moves(&board, &mb).len(), 0);
}

#[test]
fn sliding_pieces_stop_at_the_first_piece() {
    let mb = MoveBoard::new();
    let board = setup("4k3/8/8/8/R2p4/8/P7/4K3 w - - 0 1");
    let rook: Vec<(u8, u8)> = moves(&board, &mb)
        .iter()
        .filter(|m| m.piece() == 2)
        .map(|m| (m.to(), m.captured()))
        .collect();
    assert_eq!(
        rook,
        vec![(16, 7), (25, 7), (26, 7), (27, 5), (32, 7), (40, 7), (48, 7), (56, 7)]
    );
}

#[test]
fn the_list_is_full_at_its_capacity() {
    let mb = MoveBoard::new();
    // 248 queen moves and 16 promotions: more than the list holds.
    let board = setup("1nnn1nn1/PQQQQQQP/Q6Q/Q6Q/Q6Q/Q6Q/Q6Q/QQQQQQQQ w - - 0 1");
    let mut list = MoveList::new();
    all_moves(&board, &mb, &mut list);
    assert_eq!(list.len(), 255);
    // What is in the list is what was generated first.
    assert_eq!(list.get_move(0).piece(), 1);
    assert_eq!(list.get_move(247).piece(), 1);
    assert_eq!(list.get_move(248).piece(), 5);
    let last = list.get_move(254);
    assert_eq!((last.from(), last.to(), last.captured(), last.promoted()), (48, 57, 4, 3));
    // A list that is full stays as it is.
    all_moves(&board, &mb, &mut list);
    assert_eq!(list.len(), 255);
    assert_eq!(list.get_move(254), last);
}

#[test]
fn squares_are_attacked_along_the_ways_of_the_pieces() {
    let mb = MoveBoard::new();
    let board = setup("4k3/8/8/8/3q4/8/4P3/R3K1N1 w - - 0 1");
    // The black queen attacks along lines and diagonals up to the first piece.
    assert!(square_attacked(&board, &mb, 1, 3));
    assert!(square_attacked(&board, &mb, 1, 0));
    assert!(square_attacked(&board, &mb, 1, 6));
    assert!(square_attacked(&board, &mb, 1, 24));
    assert!(square_attacked(&board, &mb, 1, 63));
    assert!(!square_attacked(&board, &mb, 1, 4));
    assert!(!square_attacked(&board, &mb, 1, 12));
    // The king on e8 attacks the squares next to it.
    assert!(square_attacked(&board, &mb, 1, 52));
    assert!(!square_attacked(&board, &mb, 1, 44));
    // White: the pawn attacks d3 and f3, not e3; the knight f3 and h3 and e2.
    assert!(square_attacked(&board, &mb, 0, 19));
    assert!(square_attacked(&board, &mb, 0, 21));
    assert!(!square_attacked(&board, &mb, 0, 20));
    assert!(square_attacked(&board, &mb, 0, 23));
    assert!(square_attacked(&board, &mb, 0, 12));
    // The rook attacks along the first rank up to the king, and up the a-file.
    assert!(square_attacked(&board, &mb, 0, 1));
    assert!(square_attacked(&board, &mb, 0, 56));
    assert!(!square_attacked(&board, &mb, 0, 28));
    assert!(!king_attacked(&board, &mb, 0));
    assert!(!king_attacked(&board, &mb, 1));
    let board = setup("4k3/8/8/8/8/8/8/q3K3 w - - 0 1");
    assert!(king_attacked(&board, &mb, 0));
    assert!(!king_attacked(&board, &mb, 1));
}
