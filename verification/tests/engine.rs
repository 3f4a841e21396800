use rustic::engine::defs::{
    Action, CommControl, CommReport, ConsoleReport, GeneralReport, MoveRequest, UciReport,
};
use rustic::engine::{Engine, Settings};
use rustic::fen::{FenError, FEN_START_POSITION};
use rustic::search::defs::SearchControl;

fn engine() -> Engine {
    let mut engine = Engine::new(Settings::new(1));
    assert_eq!(engine.setup(FEN_START_POSITION), Ok(()));
    engine
}

fn request(from: u8, to: u8) -> MoveRequest {
    MoveRequest { from, to, promotion: 6 }
}

#[test]
fn engine_begins_with_the_empty_board() {
    let engine = Engine::new(Settings::new(4));
    assert_eq!(engine.settings().threads(), 4);
    assert!(!engine.quit());
    assert_eq!(engine.board().occupancy(), 0);
    assert_eq!(engine.board().history.len(), 0);
    assert!(engine.board().is_wf());
    assert_eq!(engine.move_board().king[0], 0x302);
}

#[test]
fn engine_sets_up_a_position_or_keeps_the_old_one() {
    let mut engine = engine();
    assert_eq!(engine.board().occupancy(), 0xFFFF_0000_0000_FFFF);
    assert_eq!(engine.setup("bad"), Err(FenError::FieldCount));
    assert_eq!(engine.board().occupancy(), 0xFFFF_0000_0000_FFFF);
    assert_eq!(engine.setup("4k3/8/8/8/8/8/8/4K3 b - - 3 9"), Ok(()));
    assert_eq!(engine.board().occupancy(), (1 << 4) | (1 << 60));
    assert_eq!(engine.board().game_state.fullmove_number, 9);
}

#[test]
fn quit_is_passed_on_and_kept() {
    let mut engine = engine();
    let actions = engine.comm_reports(&CommReport::General(GeneralReport::Quit));
    assert_eq!(
        actions,
        vec![Action::Comm(CommControl::Quit), Action::Search(SearchControl::Quit)]
    );
    assert!(engine.quit());
    let actions = engine.comm_reports(&CommReport::General(GeneralReport::Nothing));
    assert_eq!(actions, vec![]);
    assert!(engine.quit());
}

#[test]
fn general_reports() {
    let mut engine = engine();
    assert_eq!(
        engine.comm_reports(&CommReport::General(GeneralReport::Help)),
        vec![Action::Comm(CommControl::PrintHelp), Action::Comm(CommControl::Update)]
    );
    assert_eq!(engine.comm_reports(&CommReport::General(GeneralReport::Nothing)), vec![]);
    assert_eq!(engine.comm_reports(&CommReport::General(GeneralReport::Unknown)), vec![]);
    assert!(!engine.quit());
    assert_eq!(engine.board().history.len(), 0);
}

#[test]
fn a_move_is_played_and_taken_back() {
    let mut engine = engine();
    let key = engine.board().game_state.zobrist_key;
    let actions = engine.comm_reports(&CommReport::Console(ConsoleReport::Move(request(12, 28))));
    assert_eq!(actions, vec![Action::Comm(CommControl::Update)]);
    assert_eq!(engine.board().piece_list[28], 5);
    assert_eq!(engine.board().game_state.active_color, 1);
    assert_eq!(engine.board().history.len(), 1);
    let actions = engine.comm_reports(&CommReport::Uci(UciReport::Move(request(52, 36))));
    assert_eq!(actions, vec![Action::Comm(CommControl::Update)]);
    assert_eq!(engine.board().history.len(), 2);
    let actions = engine.comm_reports(&CommReport::Uci(UciReport::Takeback));
    assert_eq!(actions, vec![Action::Comm(CommControl::Update)]);
    let actions = engine.comm_reports(&CommReport::Console(ConsoleReport::Takeback));
    assert_eq!(actions, vec![Action::Comm(CommControl::Update)]);
    assert_eq!(engine.board().history.len(), 0);
    assert_eq!(engine.board().game_state.zobrist_key, key);
    // With nothing to take back, nothing happens.
    let actions = engine.comm_reports(&CommReport::Console(ConsoleReport::Takeback));
    assert_eq!(actions, vec![Action::Comm(CommControl::Update)]);
    assert_eq!(engine.board().history.len(), 0);
    assert!(!engine.takeback_move());
}

#[test]
fn a_move_that_cannot_be_played_changes_nothing() {
    let mut engine = engine();
    let key = engine.board().game_state.zobrist_key;
    // No piece moves from e2 to e5; e7 is not white's; a pawn on e4 cannot promote.
    assert!(!engine.execute_move(request(12, 36)));
    assert!(!engine.execute_move(request(52, 36)));
    assert!(!engine.execute_move(MoveRequest { from: 12, to: 28, promotion: 1 }));
    assert_eq!(engine.board().history.len(), 0);
    assert_eq!(engine.board().game_state.zobrist_key, key);
    // A move that leaves the king attacked is not played either.
    assert_eq!(engine.setup("4r2k/8/8/8/8/8/4N3/4K3 w - - 0 1"), Ok(()));
    assert!(!engine.execute_move(request(12, 27)));
    assert_eq!(engine.board().piece_list[12], 4);
    assert_eq!(engine.board().history.len(), 0);
    assert!(engine.execute_move(request(4, 3)));
    assert_eq!(engine.board().history.len(), 1);
}

#[test]
fn a_promotion_is_played_as_it_is_named() {
    let mut engine = engine();
    assert_eq!(engine.setup("7k/4P3/8/8/8/8/8/K7 w - - 0 1"), Ok(()));
    assert!(!engine.execute_move(request(52, 60)));
    assert!(engine.execute_move(MoveRequest { from: 52, to: 60, promotion: 2 }));
    assert_eq!(engine.board().piece_list[60], 2);
    assert!(engine.takeback_move());
    assert_eq!(engine.board().piece_list[52], 5);
}

#[test]
fn the_evaluation_is_printed() {
    let mut engine = engine();
    assert_eq!(
        engine.comm_reports(&CommReport::Console(ConsoleReport::Evaluate)),
        vec![Action::Comm(CommControl::PrintEvaluation(0)), Action::Comm(CommControl::Update)]
    );
    assert_eq!(engine.setup("r3k3/8/8/8/8/8/8/4K3 w - - 0 1"), Ok(()));
    assert_eq!(
        engine.comm_reports(&CommReport::Uci(UciReport::Evaluate)),
        vec![Action::Comm(CommControl::PrintEvaluation(-500)), Action::Comm(CommControl::Update)]
    );
}

#[test]
fn the_search_is_started_and_stopped() {
    let mut engine = engine();
    assert_eq!(
        engine.comm_reports(&CommReport::Console(ConsoleReport::Search)),
        vec![Action::Search(SearchControl::Start)]
    );
    assert_eq!(
        engine.comm_reports(&CommReport::Console(ConsoleReport::Cancel)),
        vec![Action::Search(SearchControl::Stop)]
    );
    assert_eq!(
        engine.comm_reports(&CommReport::Uci(UciReport::Search)),
        vec![Action::Search(SearchControl::Start)]
    );
    assert_eq!(
        engine.comm_reports(&CommReport::Uci(UciReport::Cancel)),
        vec![Action::Search(SearchControl::Stop)]
    );
    assert_eq!(
        engine.comm_reports(&CommReport::Uci(UciReport::Uci)),
        vec![Action::Comm(CommControl::Identify)]
    );
    assert!(!engine.quit());
}
