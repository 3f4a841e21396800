use rustic::board::gamestate::GameState;
use rustic::board::zobrist::ZobristRandoms;
use rustic::board::Board;
use rustic::fen::{fen_read, FEN_START_POSITION};
use rustic::move_boards::MoveBoard;
use rustic::movegen::gen::all_moves;
use rustic::movegen::movedefs::{Move, MoveList, NO_CAPTURE, NO_PROMOTION};

const KIWIPETE: &str = "r3k2r/p1ppqpb1/bn2pnp1/3PN3/1p2P3/2N2Q1p/PPPBBPPP/R3K2R w KQkq - 0 1";

fn setup(fen: &str) -> Board {
    let mut board = Board::new();
    assert_eq!(fen_read(fen, &mut board), Ok(()));
    board
}

fn moves(board: &Board, mb: &MoveBoard) -> Vec<Move> {
    let mut list = MoveList::new();
    all_moves(board, mb, &mut list);
    (0..list.len()).map(|i| list.get_move(i)).collect()
}

fn find(board: &Board, mb: &MoveBoard, from: u8, to: u8, promoted: u8) -> Move {
    *moves(board, mb)
        .iter()
        .find(|m| m.from() == from && m.to() == to && m.promoted() == promoted)
        .expect("the move is generated")
}

struct Snapshot {
    bb_pieces: [[u64; 6]; 2],
    bb_side: [u64; 2],
    piece_list: [usize; 64],
    game_state: GameState,
    history: Vec<GameState>,
}

fn snapshot(board: &Board) -> Snapshot {
    Snapshot {
        bb_pieces: board.bb_pieces,
        bb_side: board.bb_side,
        piece_list: board.piece_list,
        game_state: board.game_state,
        history: board.history.clone(),
    }
}

fn same(board: &Board, s: &Snapshot) -> bool {
    board.bb_pieces == s.bb_pieces
        && board.bb_side == s.bb_side
        && board.piece_list == s.piece_list
        && board.game_state == s.game_state
        && board.history == s.history
}

fn occupancy_holds(board: &Board) -> bool {
    (0..2).all(|s| {
        let union = board.bb_pieces[s].iter().fold(0, |acc, b| acc | b);
        let disjoint = (0..6).all(|p| {
            (0..6).all(|q| p == q || board.bb_pieces[s][p] & board.bb_pieces[s][q] == 0)
        });
        union == board.bb_side[s] && disjoint
    })
}

// Every position within `depth` plies: the key is the key computed afresh,
// the bitboards agree, and each move is undone exactly.
fn walk(board: &mut Board, mb: &MoveBoard, depth: u8) {
    assert_eq!(board.game_state.zobrist_key, board.init_zobrist_key());
    assert!(occupancy_holds(board));
    if depth == 0 {
        return;
    }
    let before = snapshot(board);
    for m in moves(board, mb) {
        assert!(board.accepts(m));
        board.make(m, mb);
        assert_eq!(board.history.len(), before.history.len() + 1);
        walk(board, mb, depth - 1);
        board.unmake();
        assert!(same(board, &before));
    }
}

#[test]
fn key_bitboards_and_unmake_in_the_start_position() {
    let mb = MoveBoard::new();
    let mut board = setup(FEN_START_POSITION);
    walk(&mut board, &mb, 3);
}

#[test]
fn key_bitboards_and_unmake_in_a_middlegame() {
    let mb = MoveBoard::new();
    let mut board = setup(KIWIPETE);
    walk(&mut board, &mb, 2);
    let mut board = setup("r3k2r/Pppp1ppp/1b3nbN/nP6/BBP1P3/q4N2/Pp1P2PP/R2Q1RK1 w kq - 0 1");
    walk(&mut board, &mb, 2);
    let mut board = setup("8/2p5/3p4/KP5r/1R3p1k/8/4P1P1/8 w - - 0 1");
    walk(&mut board, &mb, 3);
}

#[test]
fn key_of_the_position_before_any_move() {
    let board = Board::new();
    assert_eq!(board.game_state.zobrist_key, board.init_zobrist_key());
    assert!(board.is_wf());
    let board = setup(KIWIPETE);
    assert_eq!(board.game_state.zobrist_key, board.init_zobrist_key());
}

#[test]
fn key_does_not_depend_on_the_way() {
    let mb = MoveBoard::new();
    // Nf3 Nf6 Nc3 Nc6 and Nc3 Nc6 Nf3 Nf6 reach the same position.
    let mut a = setup(FEN_START_POSITION);
    for (from, to) in [(6, 21), (62, 45), (1, 18), (57, 42)] {
        let m = find(&a, &mb, from, to, NO_PROMOTION);
        assert!(a.make(m, &mb));
    }
    let mut b = setup(FEN_START_POSITION);
    for (from, to) in [(1, 18), (57, 42), (6, 21), (62, 45)] {
        let m = find(&b, &mb, from, to, NO_PROMOTION);
        assert!(b.make(m, &mb));
    }
    assert_eq!(a.game_state.zobrist_key, b.game_state.zobrist_key);
    assert_eq!(a.bb_pieces, b.bb_pieces);
    assert_eq!(a.game_state.halfmove_clock, 4);
    assert_eq!(a.game_state.fullmove_number, 3);
    // The side to move is part of the key.
    let white = setup("4k3/8/8/8/8/8/8/4K3 w - - 0 1");
    let black = setup("4k3/8/8/8/8/8/8/4K3 b - - 0 1");
    assert_ne!(white.game_state.zobrist_key, black.game_state.zobrist_key);
}

#[test]
fn make_double_step_sets_the_target() {
    let mb = MoveBoard::new();
    let mut board = setup(FEN_START_POSITION);
    let m = find(&board, &mb, 12, 28, NO_PROMOTION);
    assert!(m.double_step());
    assert!(board.make(m, &mb));
    assert_eq!(board.game_state.en_passant, Some(20));
    assert_eq!(board.game_state.active_color, 1);
    assert_eq!(board.game_state.halfmove_clock, 0);
    assert_eq!(board.game_state.fullmove_number, 1);
    assert_eq!(board.game_state.this_move, m);
    assert_eq!(board.piece_list[28], 5);
    assert_eq!(board.piece_list[12], 6);
    // Any other move clears it again.
    let reply = find(&board, &mb, 62, 45, NO_PROMOTION);
    assert!(board.make(reply, &mb));
    assert_eq!(board.game_state.en_passant, None);
    assert_eq!(board.game_state.halfmove_clock, 1);
    assert_eq!(board.game_state.fullmove_number, 2);
    assert_eq!(board.history.len(), 2);
    assert_eq!(board.history[1].en_passant, Some(20));
}

#[test]
fn make_en_passant_takes_the_pawn_behind() {
    let mb = MoveBoard::new();
    let mut board = setup("4k3/8/8/3pP3/8/8/8/4K3 w - d6 0 1");
    let m = find(&board, &mb, 36, 43, NO_PROMOTION);
    assert!(m.en_passant());
    assert_eq!(m.captured(), NO_CAPTURE);
    assert!(board.make(m, &mb));
    assert_eq!(board.piece_list[43], 5);
    assert_eq!(board.piece_list[35], 6);
    assert_eq!(board.piece_list[36], 6);
    assert_eq!(board.bb_pieces[1][5], 0);
    assert_eq!(board.bb_side[1], 1 << 60);
    assert_eq!(board.game_state.zobrist_key, board.init_zobrist_key());
    board.unmake();
    assert_eq!(board.piece_list[35], 5);
    assert_eq!(board.bb_pieces[1][5], 1 << 35);
    assert_eq!(board.game_state.en_passant, Some(43));
}

#[test]
fn make_castling_moves_the_rook_and_drops_the_rights() {
    let mb = MoveBoard::new();
    let mut board = setup("r3k2r/8/8/8/8/8/8/R3K2R w KQkq - 0 1");
    let m = find(&board, &mb, 4, 6, NO_PROMOTION);
    assert!(m.castling());
    assert!(board.make(m, &mb));
    assert_eq!(board.piece_list[6], 0);
    assert_eq!(board.piece_list[5], 2);
    assert_eq!(board.piece_list[7], 6);
    assert_eq!(board.piece_list[4], 6);
    assert_eq!(board.game_state.castling, 4 + 8);
    let m = find(&board, &mb, 60, 58, NO_PROMOTION);
    assert!(board.make(m, &mb));
    assert_eq!(board.piece_list[58], 0);
    assert_eq!(board.piece_list[59], 2);
    assert_eq!(board.piece_list[56], 6);
    assert_eq!(board.game_state.castling, 0);
    assert_eq!(board.game_state.zobrist_key, board.init_zobrist_key());
    board.unmake();
    board.unmake();
    assert_eq!(board.game_state.castling, 15);
    assert_eq!(board.bb_pieces[0][2], (1 << 0) | (1 << 7));
    assert_eq!(board.bb_pieces[1][2], (1 << 56) | (1 << 63));
}

#[test]
fn make_rook_moves_and_captures_drop_one_right() {
    let mb = MoveBoard::new();
    let mut board = setup("r3k2r/8/8/8/8/8/8/R3K2R w KQkq - 0 1");
    // The rook leaves a1: white may no longer castle to the queen's side.
    let m = find(&board, &mb, 0, 8, NO_PROMOTION);
    assert!(board.make(m, &mb));
    assert_eq!(board.game_state.castling, 1 + 4 + 8);
    board.unmake();
    // The rook takes on h8: white and black lose the king's side.
    let m = find(&board, &mb, 7, 63, NO_PROMOTION);
    assert_eq!(m.captured(), 2);
    assert!(board.make(m, &mb));
    assert_eq!(board.game_state.castling, 2 + 8);
    assert_eq!(board.game_state.halfmove_clock, 0);
}

#[test]
fn make_promotion_replaces_the_pawn() {
    let mb = MoveBoard::new();
    let mut board = setup("3n3k/4P3/8/8/8/8/8/4K3 w - - 7 9");
    let m = find(&board, &mb, 52, 59, 4);
    assert_eq!(m.captured(), 4);
    assert!(board.make(m, &mb));
    assert_eq!(board.piece_list[59], 4);
    assert_eq!(board.bb_pieces[0][5], 0);
    assert_eq!(board.bb_pieces[0][4], 1 << 59);
    assert_eq!(board.bb_pieces[1][4], 0);
    assert_eq!(board.game_state.halfmove_clock, 0);
    assert_eq!(board.game_state.fullmove_number, 9);
    board.unmake();
    assert_eq!(board.piece_list[52], 5);
    assert_eq!(board.piece_list[59], 4);
    assert_eq!(board.bb_pieces[1][4], 1 << 59);
    assert_eq!(board.game_state.halfmove_clock, 7);
}

#[test]
fn make_says_whether_the_king_is_safe() {
    let mb = MoveBoard::new();
    // The knight on e2 is pinned by the rook on e8.
    let mut board = setup("4r2k/8/8/8/8/8/4N3/4K3 w - - 0 1");
    let pinned = find(&board, &mb, 12, 27, NO_PROMOTION);
    assert!(!board.make(pinned, &mb));
    // The move was made all the same, and is taken back like any other.
    assert_eq!(board.piece_list[27], 4);
    board.unmake();
    assert_eq!(board.piece_list[12], 4);
    let king = find(&board, &mb, 4, 3, NO_PROMOTION);
    assert!(board.make(king, &mb));
}

#[test]
fn make_counters_stop_at_their_largest_value() {
    let mb = MoveBoard::new();
    let mut board = setup("4k3/8/8/8/8/8/8/4K3 b - - 50 9999");
    board.game_state.halfmove_clock = 255;
    board.game_state.fullmove_number = 65535;
    let m = find(&board, &mb, 60, 59, NO_PROMOTION);
    assert!(board.make(m, &mb));
    assert_eq!(board.game_state.halfmove_clock, 255);
    assert_eq!(board.game_state.fullmove_number, 65535);
    board.unmake();
    assert_eq!(board.game_state.halfmove_clock, 255);
}

#[test]
fn accepts_tells_moves_that_fit_from_moves_that_do_not() {
    let board = setup(FEN_START_POSITION);
    assert!(board.accepts(Move::new(5, 12, 28, NO_CAPTURE, NO_PROMOTION, false, true, false)));
    assert!(board.accepts(Move::new(5, 12, 20, NO_CAPTURE, NO_PROMOTION, false, false, false)));
    // No knight on e2; nothing to capture on e4; no double step from e2 to e3;
    // a knight does not promote; black is not to move.
    assert!(!board.accepts(Move::new(4, 12, 28, NO_CAPTURE, NO_PROMOTION, false, false, false)));
    assert!(!board.accepts(Move::new(5, 12, 28, 5, NO_PROMOTION, false, false, false)));
    assert!(!board.accepts(Move::new(5, 12, 20, NO_CAPTURE, NO_PROMOTION, false, true, false)));
    assert!(!board.accepts(Move::new(4, 1, 18, NO_CAPTURE, 1, false, false, false)));
    assert!(!board.accepts(Move::new(5, 52, 36, NO_CAPTURE, NO_PROMOTION, false, true, false)));
    assert!(!board.accepts(Move::new(0, 4, 6, NO_CAPTURE, NO_PROMOTION, false, false, true)));
    assert!(!board.accepts(Move::new(5, 12, 21, NO_CAPTURE, NO_PROMOTION, true, false, false)));
}

#[test]
fn well_formedness_is_checked() {
    let mut board = setup(KIWIPETE);
    assert!(board.is_wf() && board.is_consistent());
    board.game_state.zobrist_key ^= 1;
    assert!(board.is_consistent() && !board.is_wf());
    board.game_state.zobrist_key ^= 1;
    board.bb_side[0] ^= 1 << 40;
    assert!(!board.is_consistent() && !board.is_wf());
    board.bb_side[0] ^= 1 << 40;
    board.piece_list[0] = 3;
    assert!(!board.is_consistent());
    board.piece_list[0] = 2;
    board.game_state.castling = 16;
    assert!(!board.is_wf());
    board.game_state.castling = 15;
    board.game_state.active_color = 2;
    assert!(!board.is_wf());
}

#[test]
fn board_reads_its_squares() {
    let board = setup(FEN_START_POSITION);
    assert_eq!(board.piece_on(0), Some((0, 2)));
    assert_eq!(board.piece_on(60), Some((1, 0)));
    assert_eq!(board.piece_on(30), None);
    assert_eq!(board.occupancy(), 0xFFFF_0000_0000_FFFF);
    assert_eq!(board.get_pieces(5, 1), 0x00FF_0000_0000_0000);
    assert_eq!(board.us(), 0);
    assert_eq!(board.opponent(), 1);
    assert!(board.stands_on(4, 0, 0) && !board.stands_on(4, 1, 0));
}

#[test]
fn zobrist_randoms() {
    let zr = ZobristRandoms::new();
    assert_eq!(zr.white(1), 0);
    assert_eq!(zr.en_passant(None), 0);
    assert_ne!(zr.white(0), 0);
    // The target counts by its file.
    assert_eq!(zr.en_passant(Some(16)), zr.en_passant(Some(40)));
    assert_ne!(zr.en_passant(Some(16)), zr.en_passant(Some(17)));
    assert_ne!(zr.piece(0, 0, 0), zr.piece(1, 0, 0));
    assert_ne!(zr.piece(0, 0, 0), zr.piece(0, 1, 0));
    assert_ne!(zr.piece(0, 0, 0), zr.piece(0, 0, 1));
    assert_ne!(zr.castling(0), zr.castling(15));
    // The seed is fixed: the numbers are the same each time.
    let again = ZobristRandoms::new();
    assert_eq!(zr.piece(1, 5, 63), again.piece(1, 5, 63));
    assert_eq!(zr.castling(7), again.castling(7));
    let state = GameState::new();
    assert_eq!(state.zobrist_key, 0);
    assert_eq!(state.en_passant, None);
    assert_eq!(state.this_move.data, 0);
}

#[test]
fn a_copy_has_a_history_of_its_own() {
    let mb = MoveBoard::new();
    let mut board = setup(FEN_START_POSITION);
    let m = find(&board, &mb, 12, 28, NO_PROMOTION);
    assert!(board.make(m, &mb));
    let mut copy = board.copy();
    assert!(same(&copy, &snapshot(&board)));
    assert!(copy.is_wf());
    copy.unmake();
    assert_eq!(copy.history.len(), 0);
    assert_eq!(board.history.len(), 1);
    assert_eq!(board.piece_list[28], 5);
    assert_eq!(copy.piece_list[28], 6);
    // Both build their keys from the same numbers.
    assert!(copy.make(m, &mb));
    assert_eq!(copy.game_state.zobrist_key, board.game_state.zobrist_key);
}
