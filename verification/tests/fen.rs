use rustic::board::Board;
use rustic::fen::{fen_read, FenError, FEN_START_POSITION};

fn read(fen: &str) -> Result<Board, FenError> {
    let mut board = Board::new();
    fen_read(fen, &mut board).map(|_| board)
}

#[test]
fn fen_start_position() {
    let board = read(FEN_START_POSITION).unwrap();
    assert_eq!(board.bb_side[0], 0x0000_0000_0000_FFFF);
    assert_eq!(board.bb_side[1], 0xFFFF_0000_0000_0000);
    assert_eq!(board.bb_pieces[0][0], 1 << 4);
    assert_eq!(board.bb_pieces[0][1], 1 << 3);
    assert_eq!(board.bb_pieces[0][2], (1 << 0) | (1 << 7));
    assert_eq!(board.bb_pieces[0][3], (1 << 2) | (1 << 5));
    assert_eq!(board.bb_pieces[0][4], (1 << 1) | (1 << 6));
    assert_eq!(board.bb_pieces[0][5], 0xFF00);
    assert_eq!(board.bb_pieces[1][0], 1 << 60);
    assert_eq!(board.bb_pieces[1][5], 0x00FF_0000_0000_0000);
    assert_eq!(board.piece_list[0], 2);
    assert_eq!(board.piece_list[4], 0);
    assert_eq!(board.piece_list[35], 6);
    assert_eq!(board.game_state.active_color, 0);
    assert_eq!(board.game_state.castling, 15);
    assert_eq!(board.game_state.en_passant, None);
    assert_eq!(board.game_state.halfmove_clock, 0);
    assert_eq!(board.game_state.fullmove_number, 1);
    assert_eq!(board.game_state.zobrist_key, board.init_zobrist_key());
    assert_eq!(board.history.len(), 0);
    assert!(board.is_wf());
}

#[test]
fn fen_every_field() {
    let board = read("rnbqkbnr/pppp1ppp/8/4p3/4P3/8/PPPP1PPP/RNBQKBNR w Kq e3 0 2");
    assert_eq!(board.err(), Some(FenError::EnPassantWithoutPawn));
    let board =
        read("rnbqkbnr/pp1ppppp/8/2p5/4P3/8/PPPP1PPP/RNBQKBNR w Kq c6 49 1234").unwrap();
    assert_eq!(board.game_state.active_color, 0);
    assert_eq!(board.game_state.castling, 1 + 8);
    assert_eq!(board.game_state.en_passant, Some(42));
    assert_eq!(board.game_state.halfmove_clock, 49);
    assert_eq!(board.game_state.fullmove_number, 1234);
    let board = read("rnbqkbnr/pppppppp/8/8/4P3/8/PPPP1PPP/RNBQKBNR b qkQK e3 50 9999").unwrap();
    assert_eq!(board.game_state.castling, 15);
    assert_eq!(board.game_state.en_passant, Some(20));
    assert_eq!(board.game_state.active_color, 1);
    assert_eq!(board.game_state.halfmove_clock, 50);
    assert_eq!(board.game_state.fullmove_number, 9999);
    let board = read("8/8/8/8/8/8/8/8 w - - 00 0007").unwrap();
    assert_eq!(board.bb_side, [0, 0]);
    assert_eq!(board.game_state.fullmove_number, 7);
}

#[test]
fn fen_wrong_field_count() {
    assert_eq!(read("").err(), Some(FenError::FieldCount));
    assert_eq!(read("8/8/8/8/8/8/8/8 w - - 0").err(), Some(FenError::FieldCount));
    assert_eq!(read("8/8/8/8/8/8/8/8 w - - 0 1 x").err(), Some(FenError::FieldCount));
    assert_eq!(read("8/8/8/8/8/8/8/8 w - - 0 1 ").err(), Some(FenError::FieldCount));
    // Two spaces make an empty field.
    assert_eq!(read("8/8/8/8/8/8/8/8  w - - 0").err(), Some(FenError::SideToMove));
}

#[test]
fn fen_wrong_placement() {
    for bad in [
        "8/8/8/8/8/8/8/7 w - - 0 1",
        "8/8/8/8/8/8/8/9 w - - 0 1",
        "8/8/8/8/8/8/8 w - - 0 1",
        "8/8/8/8/8/8/8/8/8 w - - 0 1",
        "8/8/8/8/8/8/8/8/ w - - 0 1",
        "8/8/8/8/8/8/8/pppppppp1 w - - 0 1",
        "8/8/8/8/8/8/8/ppppppppp w - - 0 1",
        "8/8/8/8/8/8/8/4x3 w - - 0 1",
        "8/8/8/8/8/8/8/44/ w - - 0 1",
        "8/8/8/8/8/8/8/0pppppppp w - - 0 1",
        "/8/8/8/8/8/8/8 w - - 0 1",
        " w - - 0 1",
    ] {
        assert_eq!(read(bad).err(), Some(FenError::PiecePlacement), "{}", bad);
    }
}

#[test]
fn fen_wrong_side() {
    for bad in ["W", "x", "wb", "", "-"] {
        let fen = format!("8/8/8/8/8/8/8/8 {} - - 0 1", bad);
        assert_eq!(read(&fen).err(), Some(FenError::SideToMove), "{}", bad);
    }
}

#[test]
fn fen_wrong_castling() {
    for bad in ["KK", "KQkqK", "x", "K-", "", "Kx", "--"] {
        let fen = format!("r3k2r/8/8/8/8/8/8/R3K2R w {} - 0 1", bad);
        assert_eq!(read(&fen).err(), Some(FenError::CastlingRights), "{}", bad);
    }
    for (good, value) in [("K", 1), ("Q", 2), ("k", 4), ("q", 8), ("qK", 9), ("-", 0)] {
        let fen = format!("r3k2r/8/8/8/8/8/8/R3K2R w {} - 0 1", good);
        assert_eq!(read(&fen).unwrap().game_state.castling, value, "{}", good);
    }
}

#[test]
fn fen_wrong_en_passant() {
    for bad in ["e4", "i3", "e", "e33", "E3", "3e", "", "a1", "h8"] {
        let fen = format!("8/8/8/8/8/8/8/8 w - {} 0 1", bad);
        assert_eq!(read(&fen).err(), Some(FenError::EnPassant), "{}", bad);
    }
}

#[test]
fn fen_wrong_counters() {
    for bad in ["51", "100", "-1", "+5", "x", "", "5x"] {
        let fen = format!("8/8/8/8/8/8/8/8 w - - {} 1", bad);
        assert_eq!(read(&fen).err(), Some(FenError::HalfMoveClock), "{}", bad);
    }
    for bad in ["10000", "12345", "-1", "+5", "x", "1 "] {
        let fen = format!("8/8/8/8/8/8/8/8 w - - 0 {}", bad);
        let expected =
            if bad.contains(' ') { FenError::FieldCount } else { FenError::FullMoveNumber };
        assert_eq!(read(&fen).err(), Some(expected), "{}", bad);
    }
}

#[test]
fn fen_first_wrong_field_is_named() {
    assert_eq!(read("9/8/8/8/8/8/8/8 x KK e9 99 x").err(), Some(FenError::PiecePlacement));
    assert_eq!(read("8/8/8/8/8/8/8/8 x KK e9 99 x").err(), Some(FenError::SideToMove));
    assert_eq!(read("8/8/8/8/8/8/8/8 w KK e9 99 x").err(), Some(FenError::CastlingRights));
    assert_eq!(read("8/8/8/8/8/8/8/8 w K e9 99 x").err(), Some(FenError::EnPassant));
    assert_eq!(read("8/8/8/8/8/8/8/8 w K e6 99 x").err(), Some(FenError::HalfMoveClock));
    assert_eq!(read("8/8/8/8/8/8/8/8 w K e6 9 x").err(), Some(FenError::FullMoveNumber));
    assert_eq!(read("8/8/8/8/8/8/8/8 w K e6 9 1").err(), Some(FenError::RightsWithoutPieces));
    assert_eq!(read("8/8/8/8/8/8/8/8 w - e6 9 1").err(), Some(FenError::EnPassantWithoutPawn));
}

#[test]
fn fen_rights_need_king_and_rook() {
    assert_eq!(
        read("r3k2r/8/8/8/8/8/8/R3K3 w K - 0 1").err(),
        Some(FenError::RightsWithoutPieces)
    );
    assert_eq!(
        read("r3k2r/8/8/8/8/8/8/R2K3R w Q - 0 1").err(),
        Some(FenError::RightsWithoutPieces)
    );
    assert_eq!(
        read("r3k2R/8/8/8/8/8/8/R3K2R w k - 0 1").err(),
        Some(FenError::RightsWithoutPieces)
    );
    assert_eq!(
        read("4k2r/8/8/8/8/8/8/R3K2R w q - 0 1").err(),
        Some(FenError::RightsWithoutPieces)
    );
    assert!(read("4k2r/8/8/8/8/8/8/R3K2R w KQk - 0 1").is_ok());
}

#[test]
fn fen_en_passant_needs_its_pawn() {
    // The target must lie behind a pawn of the side that has just moved.
    assert!(read("4k3/8/8/3pP3/8/8/8/4K3 w - d6 0 1").is_ok());
    assert_eq!(
        read("4k3/8/8/3pP3/8/8/8/4K3 b - d6 0 1").err(),
        Some(FenError::EnPassantWithoutPawn)
    );
    assert_eq!(
        read("4k3/8/3n4/3pP3/8/8/8/4K3 w - d6 0 1").err(),
        Some(FenError::EnPassantWithoutPawn)
    );
    assert_eq!(
        read("4k3/8/8/3PP3/8/8/8/4K3 w - d6 0 1").err(),
        Some(FenError::EnPassantWithoutPawn)
    );
    assert!(read("4k3/8/8/8/3Pp3/8/8/4K3 b - d3 0 1").is_ok());
}

#[test]
fn fen_error_leaves_the_board() {
    let mut board = Board::new();
    fen_read(FEN_START_POSITION, &mut board).unwrap();
    let key = board.game_state.zobrist_key;
    assert_eq!(
        fen_read("8/8/8/8/8/8/8/8 w - - 0 x", &mut board),
        Err(FenError::FullMoveNumber)
    );
    assert_eq!(board.bb_side[0], 0xFFFF);
    assert_eq!(board.game_state.castling, 15);
    assert_eq!(board.game_state.zobrist_key, key);
    assert!(board.is_wf());
}
