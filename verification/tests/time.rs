use rustic::board::Board;
use rustic::fen::{fen_read, FEN_START_POSITION};
use rustic::move_boards::MoveBoard;
use rustic::movegen::gen::all_moves;
use rustic::movegen::movedefs::MoveList;
use rustic::search::defs::{GameTime, SearchInfo, SearchMode, SearchParams};
use rustic::search::time::{clocks_fit, slice_of, time_is_up};
use rustic::search::Search;

fn setup(fen: &str) -> Board {
    let mut board = Board::new();
    assert_eq!(fen_read(fen, &mut board), Ok(()));
    board
}

// Plays knight moves to and fro until `plies` half-moves have been made.
fn played(plies: usize) -> Board {
    let mb = MoveBoard::new();
    let mut board = setup(FEN_START_POSITION);
    let way = [(6u8, 21u8), (62, 45), (21, 6), (45, 62)];
    for i in 0..plies {
        let (from, to) = way[i % 4];
        let mut list = MoveList::new();
        all_moves(&board, &mb, &mut list);
        let m = (0..list.len())
            .map(|j| list.get_move(j))
            .find(|m| m.from() == from && m.to() == to)
            .unwrap();
        assert!(board.make(m, &mb));
    }
    board
}

fn clocks(wtime: u128, btime: u128, winc: u128, binc: u128, mtg: Option<usize>) -> SearchParams {
    let mut params = SearchParams::new(8);
    params.search_mode = SearchMode::GameTime;
    params.game_time = GameTime { wtime, btime, winc, binc, moves_to_go: mtg };
    params
}

#[test]
fn time_is_up_with_plenty_of_time() {
    assert!(!time_is_up(11_999, 6_000));
    assert!(time_is_up(12_000, 6_000));
    assert!(!time_is_up(10_001, 5_001));
    assert!(time_is_up(10_002, 5_001));
    assert!(!time_is_up(u128::MAX - 2, u128::MAX / 2));
    assert!(time_is_up(u128::MAX - 1, u128::MAX / 2));
    assert!(!time_is_up(u128::MAX, u128::MAX));
}

#[test]
fn time_is_up_with_little_time() {
    assert!(!time_is_up(7_499, 5_000));
    assert!(time_is_up(7_500, 5_000));
    // One and a half times 3001 is 4501.5, which is rounded up.
    assert!(!time_is_up(4_501, 3_001));
    assert!(time_is_up(4_502, 3_001));
    assert!(!time_is_up(1_501, 1_001));
    assert!(time_is_up(1_502, 1_001));
}

#[test]
fn time_is_up_in_critical_time() {
    assert!(!time_is_up(999, 1_000));
    assert!(time_is_up(1_000, 1_000));
    assert!(time_is_up(1_001, 1_000));
    assert!(!time_is_up(0, 1));
    assert!(time_is_up(0, 0));
}

#[test]
fn slice_is_the_share_and_the_increment_less_the_overhead() {
    assert_eq!(slice_of(60_000, 0, 30), 1_900);
    assert_eq!(slice_of(60_000, 1_000, 30), 2_900);
    assert_eq!(slice_of(60_000, 0, 1), 59_900);
    // In critical time with an increment the clock is left alone.
    assert_eq!(slice_of(1_000, 500, 10), 400);
    assert_eq!(slice_of(1_001, 500, 10), 500);
    assert_eq!(slice_of(500, 1_000, 30), 900);
    // Without an increment the clock is shared out even then.
    assert_eq!(slice_of(500, 0, 30), -83);
    assert_eq!(slice_of(0, 0, 5), -100);
    // The share is rounded to the nearest, a half up.
    assert_eq!(slice_of(2_000, 0, 16), 25);
    assert_eq!(slice_of(2_008, 0, 16), 26);
    assert_eq!(slice_of(2_007, 0, 16), 25);
    assert_eq!(slice_of(i128::MAX as u128, 0, 1), i128::MAX - 100);
}

#[test]
fn slice_does_not_grow_with_the_moves_to_go() {
    for (clock, increment) in [(60_000u128, 0u128), (1_234, 0), (59_999, 700), (800, 50), (7, 0)] {
        let mut last = slice_of(clock, increment, 1);
        for moves in 2..200 {
            let slice = slice_of(clock, increment, moves);
            assert!(slice <= last, "{} {} {}", clock, increment, moves);
            last = slice;
        }
    }
}

#[test]
fn moves_to_go_are_taken_from_the_clocks() {
    let board = setup(FEN_START_POSITION);
    assert_eq!(Search::moves_to_go(&board, &clocks(1, 1, 0, 0, Some(7))), 7);
    assert_eq!(Search::moves_to_go(&board, &clocks(1, 1, 0, 0, Some(1))), 1);
}

#[test]
fn moves_to_go_are_estimated_from_the_moves_made() {
    let params = clocks(1, 1, 0, 0, None);
    assert_eq!(Search::moves_to_go(&played(0), &params), 30);
    assert_eq!(Search::moves_to_go(&played(1), &params), 30);
    assert_eq!(Search::moves_to_go(&played(2), &params), 29);
    assert_eq!(Search::moves_to_go(&played(20), &params), 20);
    assert_eq!(Search::moves_to_go(&played(21), &params), 20);
    assert_eq!(Search::moves_to_go(&played(50), &params), 5);
    assert_eq!(Search::moves_to_go(&played(59), &params), 5);
    // The second phase is taken to last fifteen moves.
    assert_eq!(Search::moves_to_go(&played(60), &params), 15);
    assert_eq!(Search::moves_to_go(&played(70), &params), 10);
    assert_eq!(Search::moves_to_go(&played(88), &params), 5);
    // A position set up with black to move has no move made.
    let board = setup("4k3/8/8/8/8/8/8/4K3 b - - 0 1");
    assert_eq!(Search::moves_to_go(&board, &params), 30);
}

#[test]
fn the_slice_comes_from_the_clock_of_the_side_to_move() {
    let params = clocks(60_000, 30_000, 1_000, 2_000, None);
    assert_eq!(Search::allocate_time_slice(&played(0), &params), 2_900);
    assert_eq!(Search::allocate_time_slice(&played(1), &params), 2_900);
    assert_eq!(Search::allocate_time_slice(&played(20), &params), 3_900);
    assert_eq!(Search::allocate_time_slice(&played(21), &params), 3_400);
    let params = clocks(60_000, 30_000, 0, 0, Some(10));
    assert_eq!(Search::allocate_time_slice(&played(0), &params), 5_900);
    assert_eq!(Search::allocate_time_slice(&played(1), &params), 2_900);
}

#[test]
fn a_search_that_has_just_begun_is_not_out_of_plenty_of_time() {
    let mut info = SearchInfo::new();
    info.allocated_time = 3_600_000;
    assert!(!Search::out_of_time(&info));
    info.allocated_time = 0;
    assert!(Search::out_of_time(&info));
}

#[test]
fn clocks_are_checked() {
    let most = i128::MAX as u128;
    assert!(clocks_fit(&clocks(60_000, 60_000, 1_000, 1_000, None).game_time));
    assert!(clocks_fit(&clocks(most, 0, 0, most, Some(1)).game_time));
    assert!(!clocks_fit(&clocks(1, 1, 0, 0, Some(0)).game_time));
    assert!(!clocks_fit(&clocks(most, 0, 1, 0, None).game_time));
    assert!(!clocks_fit(&clocks(0, most, 0, 1, None).game_time));
    assert!(!clocks_fit(&clocks(most + 1, 0, 0, 0, None).game_time));
    assert!(!clocks_fit(&clocks(0, 0, 0, u128::MAX, None).game_time));
}
