use crossbeam_channel::unbounded;
use rustic::board::Board;
use rustic::fen::{fen_read, FEN_START_POSITION};
use rustic::move_boards::MoveBoard;
use rustic::search::defs::{
    Information, SearchControl, SearchInfo, SearchParams, SearchReport, SearchTerminate, CHECKMATE,
};
use rustic::search::defs::{SearchMode, INF, MAX_DEPTH, STALEMATE};
use rustic::search::{Search, Worker};

fn position(fen: &str) -> Board {
    let mut board = Board::new();
    assert_eq!(fen_read(fen, &mut board), Ok(()));
    board
}

#[test]
fn search_finds_mate_in_one() {
    let mb = MoveBoard::new();
    // White mates with the rook on a8.
    let mut board = position("6k1/5ppp/8/8/8/8/8/R5K1 w - - 0 1");
    let (_control_tx, control_rx) = unbounded::<SearchControl>();
    let (report_tx, report_rx) = unbounded::<Information>();
    let params = SearchParams::new(3);
    let mut info = SearchInfo::new();
    let (best, why) =
        Search::iterative_deepening(&mut board, &mb, &params, &mut info, &control_rx, &report_tx);
    assert_eq!(why, SearchTerminate::Nothing);
    assert_eq!(best.from(), 0);
    assert_eq!(best.to(), 56);
    assert_eq!(info.summaries.len(), 3);
    // Mate is given at ply one of the line.
    assert_eq!(info.summaries[1].cp, CHECKMATE - 1);
    let mut depths = Vec::new();
    while let Ok(Information::Search(SearchReport::SearchSummary(summary))) = report_rx.try_recv() {
        depths.push(summary.depth);
    }
    assert_eq!(depths, vec![1, 2, 3]);
}

#[test]
fn search_reports_depths_in_order() {
    let mb = MoveBoard::new();
    let mut board = position(FEN_START_POSITION);
    let key = board.game_state.zobrist_key;
    let (_control_tx, control_rx) = unbounded::<SearchControl>();
    let (report_tx, _report_rx) = unbounded::<Information>();
    let params = SearchParams::new(4);
    let mut info = SearchInfo::new();
    let (best, why) =
        Search::iterative_deepening(&mut board, &mb, &params, &mut info, &control_rx, &report_tx);
    assert_eq!(why, SearchTerminate::Nothing);
    assert_eq!(info.summaries.len(), 4);
    for (i, summary) in info.summaries.iter().enumerate() {
        assert_eq!(summary.depth as usize, i + 1);
        if i > 0 {
            assert!(info.summaries[i - 1].nodes <= summary.nodes);
        }
    }
    assert_eq!(info.summaries[3].pv[0], best);
    assert_eq!(board.game_state.zobrist_key, key);
    assert_eq!(board.history.len(), 0);
}

#[test]
fn search_stops_on_command() {
    let mb = MoveBoard::new();
    let mut board = position(FEN_START_POSITION);
    let (control_tx, control_rx) = unbounded::<SearchControl>();
    let (report_tx, _report_rx) = unbounded::<Information>();
    control_tx.send(SearchControl::Stop).unwrap();
    let params = SearchParams::new(6);
    let mut info = SearchInfo::new();
    let (best, why) =
        Search::iterative_deepening(&mut board, &mb, &params, &mut info, &control_rx, &report_tx);
    assert_eq!(why, SearchTerminate::Stop);
    assert_eq!(info.summaries.len(), 0);
    assert_eq!(best.data, 0);
}

fn search(fen: &str, params: &SearchParams) -> (SearchInfo, rustic::movegen::movedefs::Move) {
    let mb = MoveBoard::new();
    let mut board = position(fen);
    let (_control_tx, control_rx) = unbounded::<SearchControl>();
    let (report_tx, _report_rx) = unbounded::<Information>();
    let mut info = SearchInfo::new();
    let (best, _) =
        Search::iterative_deepening(&mut board, &mb, params, &mut info, &control_rx, &report_tx);
    (info, best)
}

#[test]
fn search_scores_mate_and_stalemate() {
    // Black is mated: the side to move has lost at ply zero.
    let (info, best) = search("R5k1/5ppp/8/8/8/8/8/6K1 b - - 0 1", &SearchParams::new(2));
    assert_eq!(info.summaries.len(), 2);
    assert_eq!(info.summaries[0].cp, -CHECKMATE);
    assert_eq!(info.summaries[1].cp, -CHECKMATE);
    assert_eq!(best.data, 0);
    assert_eq!(info.summaries[1].pv.len(), 0);
    // Black has no move and is not in check.
    let (info, best) = search("7k/5Q2/6K1/8/8/8/8/8 b - - 0 1", &SearchParams::new(2));
    assert_eq!(info.summaries[0].cp, STALEMATE);
    assert_eq!(info.summaries[1].cp, STALEMATE);
    assert_eq!(best.data, 0);
    // One ply deep the mate is not seen yet: the score is the material.
    let (info, _) = search("6k1/5ppp/8/8/8/8/8/R5K1 w - - 0 1", &SearchParams::new(1));
    assert_eq!(info.summaries[0].cp, 500 - 300);
}

#[test]
fn search_takes_what_is_hanging() {
    // The queen on d4 can be taken by the pawn on e3.
    let (info, best) = search("4k3/8/8/8/3q4/4P3/8/4K3 w - - 0 1", &SearchParams::new(1));
    assert_eq!((best.from(), best.to(), best.captured()), (20, 27, 1));
    assert_eq!(info.summaries[0].cp, 100);
    assert_eq!(info.summaries[0].pv, vec![best]);
    assert_eq!(info.best_move, best);
    // At depth two the opponent's best reply is counted.
    let (info, best) = search("4k3/8/2p5/3p4/4P3/8/8/4K3 w - - 0 1", &SearchParams::new(2));
    assert_eq!(info.summaries[0].cp, 0);
    assert_eq!(info.summaries[1].cp, -100);
    assert_eq!(info.summaries[1].pv.len(), 2);
    assert_eq!(info.summaries[1].pv[0], best);
}

#[test]
fn search_goes_no_deeper_than_asked_or_allowed() {
    let (info, _) = search("7k/5Q2/6K1/8/8/8/8/8 b - - 0 1", &SearchParams::new(0));
    assert_eq!(info.summaries.len(), 0);
    let (info, _) = search("7k/5Q2/6K1/8/8/8/8/8 b - - 0 1", &SearchParams::new(255));
    assert_eq!(info.summaries.len(), MAX_DEPTH as usize - 1);
    assert!(INF > CHECKMATE);
}

#[test]
fn search_bounded_by_time_stops() {
    let mut params = SearchParams::new(100);
    params.search_mode = SearchMode::MoveTime;
    params.move_time = 50;
    let mb = MoveBoard::new();
    let mut board = position(FEN_START_POSITION);
    let (_control_tx, control_rx) = unbounded::<SearchControl>();
    let (report_tx, _report_rx) = unbounded::<Information>();
    let mut info = SearchInfo::new();
    let (best, why) =
        Search::iterative_deepening(&mut board, &mb, &params, &mut info, &control_rx, &report_tx);
    assert_eq!(why, SearchTerminate::Stop);
    assert_eq!(info.allocated_time, 50);
    assert!(info.summaries.len() >= 1);
    // The move is the one of the last depth that was finished.
    assert_eq!(info.summaries[info.summaries.len() - 1].pv[0], best);
    assert_eq!(board.history.len(), 0);
    assert!(board.is_wf());
}

#[test]
fn search_ends_when_nobody_listens() {
    let mb = MoveBoard::new();
    let mut board = position(FEN_START_POSITION);
    let (_control_tx, control_rx) = unbounded::<SearchControl>();
    let (report_tx, report_rx) = unbounded::<Information>();
    drop(report_rx);
    let mut info = SearchInfo::new();
    let (_, why) = Search::iterative_deepening(
        &mut board,
        &mb,
        &SearchParams::new(5),
        &mut info,
        &control_rx,
        &report_tx,
    );
    assert_eq!(why, SearchTerminate::Quit);
    assert!(info.disconnected);
    assert_eq!(info.summaries.len(), 1);
}

#[test]
fn nodes_per_second() {
    assert_eq!(Search::nodes_per_second(1_000, 500), 2_000);
    assert_eq!(Search::nodes_per_second(1, 3), 333);
    assert_eq!(Search::nodes_per_second(2, 3), 667);
    assert_eq!(Search::nodes_per_second(1, 2_000), 1);
    assert_eq!(Search::nodes_per_second(1, 2_001), 0);
    assert_eq!(Search::nodes_per_second(5, 0), 0);
    assert_eq!(Search::nodes_per_second(usize::MAX, 1), usize::MAX);
    assert_eq!(Search::nodes_per_second(7, u128::MAX), 0);
}

#[test]
fn termination_is_decided() {
    assert_eq!(Search::decide_termination(SearchTerminate::Nothing, None, false, false), SearchTerminate::Nothing);
    assert_eq!(Search::decide_termination(SearchTerminate::Nothing, Some(SearchControl::Stop), false, false), SearchTerminate::Stop);
    assert_eq!(Search::decide_termination(SearchTerminate::Nothing, Some(SearchControl::Quit), true, true), SearchTerminate::Quit);
    assert_eq!(Search::decide_termination(SearchTerminate::Nothing, Some(SearchControl::Start), false, false), SearchTerminate::Nothing);
    assert_eq!(Search::decide_termination(SearchTerminate::Nothing, Some(SearchControl::Nothing), true, false), SearchTerminate::Nothing);
    assert_eq!(Search::decide_termination(SearchTerminate::Nothing, None, true, true), SearchTerminate::Stop);
    assert_eq!(Search::decide_termination(SearchTerminate::Nothing, None, false, true), SearchTerminate::Nothing);
    // A flag that is set stays.
    assert_eq!(Search::decide_termination(SearchTerminate::Stop, Some(SearchControl::Quit), true, true), SearchTerminate::Stop);
    assert_eq!(Search::decide_termination(SearchTerminate::Quit, Some(SearchControl::Stop), false, false), SearchTerminate::Quit);
}

#[test]
fn worker_waits_searches_and_quits() {
    let mut worker = Worker::new();
    assert!(worker.halt && !worker.quit);
    assert!(!worker.command(SearchControl::Nothing));
    assert!(worker.command(SearchControl::Start));
    assert!(!worker.halt);
    worker.finished(SearchTerminate::Nothing);
    assert!(!worker.halt && !worker.quit);
    assert!(worker.command(SearchControl::Nothing));
    worker.finished(SearchTerminate::Stop);
    assert!(worker.halt && !worker.quit);
    assert!(!worker.command(SearchControl::Stop));
    assert!(worker.command(SearchControl::Start));
    assert!(!worker.command(SearchControl::Quit));
    assert!(worker.quit && !worker.halt);
    let mut worker = Worker::new();
    assert!(worker.command(SearchControl::Start));
    worker.finished(SearchTerminate::Quit);
    assert!(worker.halt && worker.quit);
    assert!(!worker.command(SearchControl::Start));
}

#[test]
fn commands_are_sent_to_the_search() {
    let mut search = Search::new();
    // Without a channel nothing is amiss.
    assert!(search.send(SearchControl::Start));
    let (control_tx, control_rx) = unbounded::<SearchControl>();
    search.connect(control_tx);
    assert!(search.send(SearchControl::Start));
    assert!(search.send(SearchControl::Quit));
    assert_eq!(control_rx.try_recv(), Ok(SearchControl::Start));
    assert_eq!(control_rx.try_recv(), Ok(SearchControl::Quit));
    assert!(control_rx.try_recv().is_err());
    drop(control_rx);
    assert!(!search.send(SearchControl::Stop));
}

#[test]
fn a_whole_search_ends_with_the_move_to_play() {
    let mb = MoveBoard::new();
    let mut board = position("4k3/8/8/8/3q4/4P3/8/4K3 w - - 0 1");
    let (_control_tx, control_rx) = unbounded::<SearchControl>();
    let (report_tx, report_rx) = unbounded::<Information>();
    let info = Search::run(&mut board, &mb, &SearchParams::new(2), &control_rx, &report_tx);
    assert_eq!(info.terminate, SearchTerminate::Nothing);
    assert_eq!(info.summaries.len(), 2);
    assert_eq!((info.best_move.from(), info.best_move.to()), (20, 27));
    assert_eq!(info.allocated_time, 0);
    let mut seen = Vec::new();
    while let Ok(Information::Search(report)) = report_rx.try_recv() {
        seen.push(match report {
            SearchReport::SearchSummary(summary) => (summary.depth, summary.pv[0]),
            SearchReport::Finished(m, why) => {
                assert_eq!(why, SearchTerminate::Nothing);
                (0, m)
            }
        });
    }
    assert_eq!(seen, vec![(1, info.best_move), (2, info.best_move), (0, info.best_move)]);
    // With nobody to listen the search ends as if told to quit.
    drop(report_rx);
    let info = Search::run(&mut board, &mb, &SearchParams::new(2), &control_rx, &report_tx);
    assert!(info.disconnected);
    assert_eq!(info.terminate, SearchTerminate::Quit);
}

#[test]
fn a_search_takes_its_time_from_the_clocks() {
    let mb = MoveBoard::new();
    let mut board = position(FEN_START_POSITION);
    let (control_tx, control_rx) = unbounded::<SearchControl>();
    let (report_tx, _report_rx) = unbounded::<Information>();
    control_tx.send(SearchControl::Stop).unwrap();
    let mut params = SearchParams::new(3);
    params.search_mode = SearchMode::GameTime;
    params.game_time.wtime = 60_000;
    params.game_time.winc = 1_000;
    let info = Search::run(&mut board, &mb, &params, &control_rx, &report_tx);
    assert_eq!(info.allocated_time, 2_900);
    assert_eq!(info.terminate, SearchTerminate::Stop);
    // A clock that leaves nothing gives no time at all.
    control_tx.send(SearchControl::Stop).unwrap();
    params.game_time.wtime = 50;
    params.game_time.winc = 0;
    let info = Search::run(&mut board, &mb, &params, &control_rx, &report_tx);
    assert_eq!(info.allocated_time, 0);
}

#[test]
fn a_search_that_is_given_no_time_is_ended_at_the_first_look() {
    let (_control_tx, control_rx) = unbounded::<SearchControl>();
    let mut params = SearchParams::new(4);
    params.search_mode = SearchMode::MoveTime;
    params.move_time = 0;
    let mut info = SearchInfo::new();
    Search::check_termination(&params, &mut info, &control_rx);
    assert_eq!(info.terminate, SearchTerminate::Stop);
    // A search to a depth does not look at the clock.
    let mut info = SearchInfo::new();
    Search::check_termination(&SearchParams::new(4), &mut info, &control_rx);
    assert_eq!(info.terminate, SearchTerminate::Nothing);
    // A flag that is set stays, whatever is sent.
    let (control_tx, control_rx) = unbounded::<SearchControl>();
    control_tx.send(SearchControl::Quit).unwrap();
    let mut info = SearchInfo::new();
    info.terminate = SearchTerminate::Stop;
    Search::check_termination(&params, &mut info, &control_rx);
    assert_eq!(info.terminate, SearchTerminate::Stop);
    control_tx.send(SearchControl::Quit).unwrap();
    let mut info = SearchInfo::new();
    Search::check_termination(&SearchParams::new(4), &mut info, &control_rx);
    assert_eq!(info.terminate, SearchTerminate::Quit);
}
