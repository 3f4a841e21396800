//! What the engine does with a report of the front end.

use crate::board::BoardView;
use crate::engine::defs::{
    Action, CommControl, CommReport, ConsoleReport, GeneralReport, UciReport,
};
use crate::engine::{after_request, after_takeback, Engine};
use crate::evaluation::{evaluate_position, evaluation};
use crate::search::defs::SearchControl;
use vstd::prelude::*;

verus! {

/// What is to be done after a report that any front end can make: to quit
/// is to tell the front end and the search to quit; help is printed and
/// the screen brought up to date; nothing else has an effect.
pub open spec fn general_actions(report: GeneralReport) -> Seq<Action> {
    match report {
        GeneralReport::Quit => seq![
            Action::Comm(CommControl::Quit),
            Action::Search(SearchControl::Quit),
        ],
        GeneralReport::Help => seq![
            Action::Comm(CommControl::PrintHelp),
            Action::Comm(CommControl::Update),
        ],
        GeneralReport::Nothing => seq![],
        GeneralReport::Unknown => seq![],
    }
}

/// What is to be done after a report of the console, in the position `v`:
/// after a move or a takeback the screen is brought up to date; the
/// evaluation of the position is printed; the search is started or
/// stopped.
pub open spec fn console_actions(report: ConsoleReport, v: BoardView) -> Seq<Action> {
    match report {
        ConsoleReport::Move(_) => seq![Action::Comm(CommControl::Update)],
        ConsoleReport::Evaluate => seq![
            Action::Comm(CommControl::PrintEvaluation(evaluation(v.squares) as i16)),
            Action::Comm(CommControl::Update),
        ],
        ConsoleReport::Takeback => seq![Action::Comm(CommControl::Update)],
        ConsoleReport::Search => seq![Action::Search(SearchControl::Start)],
        ConsoleReport::Cancel => seq![Action::Search(SearchControl::Stop)],
    }
}

/// What is to be done after a report of the UCI front end, in the position
/// `v`: the engine names itself; the rest is as for the console.
pub open spec fn uci_actions(report: UciReport, v: BoardView) -> Seq<Action> {
    match report {
        UciReport::Uci => seq![Action::Comm(CommControl::Identify)],
        UciReport::Move(_) => seq![Action::Comm(CommControl::Update)],
        UciReport::Evaluate => seq![
            Action::Comm(CommControl::PrintEvaluation(evaluation(v.squares) as i16)),
            Action::Comm(CommControl::Update),
        ],
        UciReport::Takeback => seq![Action::Comm(CommControl::Update)],
        UciReport::Search => seq![Action::Search(SearchControl::Start)],
        UciReport::Cancel => seq![Action::Search(SearchControl::Stop)],
    }
}

/// What is to be done after a report.
pub open spec fn report_actions(report: CommReport, v: BoardView) -> Seq<Action> {
    match report {
        CommReport::General(r) => general_actions(r),
        CommReport::Console(r) => console_actions(r, v),
        CommReport::Uci(r) => uci_actions(r, v),
    }
}

/// The position after a report: a move that can be played is made, a
/// takeback takes the last move back, nothing else changes the position.
pub open spec fn position_after(report: CommReport, v: BoardView) -> BoardView {
    match report {
        CommReport::Console(ConsoleReport::Move(request)) => after_request(v, request),
        CommReport::Uci(UciReport::Move(request)) => after_request(v, request),
        CommReport::Console(ConsoleReport::Takeback) => after_takeback(v),
        CommReport::Uci(UciReport::Takeback) => after_takeback(v),
        _ => v,
    }
}

// This block implements handling of incoming information, which will be in
// the form of either Comm or Search reports.
impl Engine {
    /// Takes a report of the front end: changes the position as the report
    /// asks, and returns what is to be done, in order.
    pub fn comm_reports(&mut self, comm_report: &CommReport) -> (actions: Vec<Action>)
        requires
            old(self).wf(),
        ensures
            final(self).wf(),
            final(self).spec_settings() == old(self).spec_settings(),
            actions@ == report_actions(*comm_report, old(self).position()),
            final(self).position() == position_after(*comm_report, old(self).position()),
            final(self).has_quit() == (old(self).has_quit() || *comm_report == CommReport::General(
                GeneralReport::Quit,
            )),
    {
        // Split out the comm reports according to their source.
        match comm_report {
            CommReport::General(_) => self.comm_reports_general(comm_report),
            CommReport::Console(_) => self.comm_reports_console(comm_report),
            CommReport::Uci(_) => self.comm_reports_uci(comm_report),
        }
    }

    // Handles "General" Comm reports, that can be sent by any Comm module.
    fn comm_reports_general(&mut self, comm_report: &CommReport) -> (actions: Vec<Action>)
        requires
            old(self).wf(),
            *comm_report is General,
        ensures
            final(self).wf(),
            final(self).spec_settings() == old(self).spec_settings(),
            actions@ == report_actions(*comm_report, old(self).position()),
            final(self).position() == old(self).position(),
            final(self).has_quit() == (old(self).has_quit() || *comm_report == CommReport::General(
                GeneralReport::Quit,
            )),
    {
        let mut actions: Vec<Action> = Vec::new();
        match comm_report {
            // Quit Comm, Search, and then the engine itself.
            CommReport::General(GeneralReport::Quit) => {
                actions.push(Action::Comm(CommControl::Quit));
                actions.push(Action::Search(SearchControl::Quit));
                self.set_quit();
            },
            // Print the Help screen for the Comm module.
            CommReport::General(GeneralReport::Help) => {
                actions.push(Action::Comm(CommControl::PrintHelp));
                actions.push(Action::Comm(CommControl::Update));
            },
            // Ignore if Nothing reported or report is Unknown.
            CommReport::General(GeneralReport::Nothing) => (),
            CommReport::General(GeneralReport::Unknown) => (),
            _ => (),
        }
        assert(actions@ =~= report_actions(*comm_report, old(self).position()));
        actions
    }

    // Handles "Console" Comm reports coming from the Console module.
    fn comm_reports_console(&mut self, comm_report: &CommReport) -> (actions: Vec<Action>)
        requires
            old(self).wf(),
            *comm_report is Console,
        ensures
            final(self).wf(),
            final(self).spec_settings() == old(self).spec_settings(),
            actions@ == report_actions(*comm_report, old(self).position()),
            final(self).position() == position_after(*comm_report, old(self).position()),
            final(self).has_quit() == old(self).has_quit(),
    {
        let mut actions: Vec<Action> = Vec::new();
        match comm_report {
            // Execute the received move.
            CommReport::Console(ConsoleReport::Move(m)) => {
                self.execute_move(*m);
                actions.push(Action::Comm(CommControl::Update));
            },
            // Send evaluation result upon request.
            CommReport::Console(ConsoleReport::Evaluate) => {
                let eval: i16 = evaluate_position(self.board());
                actions.push(Action::Comm(CommControl::PrintEvaluation(eval)));
                actions.push(Action::Comm(CommControl::Update));
            },
            CommReport::Console(ConsoleReport::Takeback) => {
                self.takeback_move();
                actions.push(Action::Comm(CommControl::Update));
            },
            // Start or stop the search.
            CommReport::Console(ConsoleReport::Search) => {
                actions.push(Action::Search(SearchControl::Start));
            },
            CommReport::Console(ConsoleReport::Cancel) => {
                actions.push(Action::Search(SearchControl::Stop));
            },
            _ => (),
        }
        assert(actions@ =~= report_actions(*comm_report, old(self).position()));
        actions
    }

    // Handles "Uci" Comm reports sent by the UCI-module.
    fn comm_reports_uci(&mut self, comm_report: &CommReport) -> (actions: Vec<Action>)
        requires
            old(self).wf(),
            *comm_report is Uci,
        ensures
            final(self).wf(),
            final(self).spec_settings() == old(self).spec_settings(),
            actions@ == report_actions(*comm_report, old(self).position()),
            final(self).position() == position_after(*comm_report, old(self).position()),
            final(self).has_quit() == old(self).has_quit(),
    {
        let mut actions: Vec<Action> = Vec::new();
        match comm_report {
            // Received command: 'uci'
            CommReport::Uci(UciReport::Uci) => {
                actions.push(Action::Comm(CommControl::Identify));
            },
            // Execute the received move.
            CommReport::Uci(UciReport::Move(m)) => {
                self.execute_move(*m);
                actions.push(Action::Comm(CommControl::Update));
            },
            // Send evaluation result upon request.
            CommReport::Uci(UciReport::Evaluate) => {
                let eval: i16 = evaluate_position(self.board());
                actions.push(Action::Comm(CommControl::PrintEvaluation(eval)));
                actions.push(Action::Comm(CommControl::Update));
            },
            CommReport::Uci(UciReport::Takeback) => {
                self.takeback_move();
                actions.push(Action::Comm(CommControl::Update));
            },
            // Start or stop the search.
            CommReport::Uci(UciReport::Search) => {
                actions.push(Action::Search(SearchControl::Start));
            },
            CommReport::Uci(UciReport::Cancel) => {
                actions.push(Action::Search(SearchControl::Stop));
            },
            _ => (),
        }
        assert(actions@ =~= report_actions(*comm_report, old(self).position()));
        actions
    }
}

} // verus!
