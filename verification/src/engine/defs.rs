//! What the engine is told by the front end, and what it tells it and the
//! search to do.

use crate::search::defs::SearchControl;
use vstd::prelude::*;

verus! {

/// A move as the front end names it: the squares, and the piece that a
/// pawn becomes (6 when it becomes none).
#[derive(Clone, Copy, Debug, PartialEq, Eq, Structural)]
pub struct MoveRequest {
    pub from: u8,
    pub to: u8,
    pub promotion: u8,
}

/// What the engine tells the front end to do.
#[derive(Clone, Copy, Debug, PartialEq, Eq, Structural)]
pub enum CommControl {
    Quit,
    PrintHelp,
    Update,
    Identify,
    PrintEvaluation(i16),
}

/// What any front end can report.
#[derive(Clone, Copy, Debug, PartialEq, Eq, Structural)]
pub enum GeneralReport {
    Quit,
    Help,
    Nothing,
    Unknown,
}

/// What the console reports.
#[derive(Clone, Copy, Debug, PartialEq, Eq, Structural)]
pub enum ConsoleReport {
    Move(MoveRequest),
    Evaluate,
    Takeback,
    Search,
    Cancel,
}

/// What the UCI front end reports.
#[derive(Clone, Copy, Debug, PartialEq, Eq, Structural)]
pub enum UciReport {
    Uci,
    Move(MoveRequest),
    Evaluate,
    Takeback,
    Search,
    Cancel,
}

/// A report of the front end, by where it comes from.
#[derive(Clone, Copy, Debug, PartialEq, Eq, Structural)]
pub enum CommReport {
    General(GeneralReport),
    Console(ConsoleReport),
    Uci(UciReport),
}

/// Something for the engine's caller to do: a command to hand to the front
/// end, or one to hand to the search.
#[derive(Clone, Copy, Debug, PartialEq, Eq, Structural)]
pub enum Action {
    Comm(CommControl),
    Search(SearchControl),
}

} // verus!
