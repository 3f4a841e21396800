//! What the search is told, what it keeps while it runs, and what it
//! reports.

use crate::movegen::movedefs::Move;
use crossbeam_channel::{Receiver, Sender};
use std::time::{Duration, Instant};
use vstd::prelude::*;

verus! {

/// No search goes deeper than this many plies.
pub const MAX_DEPTH: u8 = 128;

/// A score beyond every score of a position.
pub const INF: i16 = 25_000;

/// The score of giving mate at once.
pub const CHECKMATE: i16 = 24_000;

/// The score of a position without a legal move and without check.
pub const STALEMATE: i16 = 0;

/// How often the search looks for a command and at the clock: each time
/// the count of nodes has these bits at zero.
pub const CHECK_TERMINATION: usize = 0x7FF;

/// A command to the search.
#[derive(Clone, Copy, Debug, PartialEq, Eq, Structural)]
pub enum SearchControl {
    Start,
    Stop,
    Quit,
    Nothing,
}

/// Why a search ended before it was done, if it did.
#[derive(Clone, Copy, Debug, PartialEq, Eq, Structural)]
pub enum SearchTerminate {
    Stop,
    Quit,
    Nothing,
}

/// What bounds a search besides its depth.
#[derive(Clone, Copy, Debug, PartialEq, Eq, Structural)]
pub enum SearchMode {
    /// Nothing: the search runs to its depth.
    Depth,
    /// A time for this move, in milliseconds.
    MoveTime,
    /// The clocks of the game, of which the search takes a slice.
    GameTime,
}

/// The clocks of both sides in milliseconds, the time added for each move,
/// and the number of moves until the clocks are filled up, if it is known.
#[derive(Clone, Copy, Debug, PartialEq, Eq)]
pub struct GameTime {
    pub wtime: u128,
    pub btime: u128,
    pub winc: u128,
    pub binc: u128,
    pub moves_to_go: Option<usize>,
}

/// What the search is told.
#[derive(Clone, Copy, Debug, PartialEq, Eq)]
pub struct SearchParams {
    pub depth: u8,
    pub move_time: u128,
    pub game_time: GameTime,
    pub search_mode: SearchMode,
}

impl SearchParams {
    /// A search to `depth` that no clock bounds.
    pub fn new(depth: u8) -> (params: SearchParams)
        ensures
            params == (SearchParams {
                depth,
                move_time: 0,
                game_time: GameTime { wtime: 0, btime: 0, winc: 0, binc: 0, moves_to_go: None },
                search_mode: SearchMode::Depth,
            }),
    {
        SearchParams {
            depth,
            move_time: 0,
            game_time: GameTime { wtime: 0, btime: 0, winc: 0, binc: 0, moves_to_go: None },
            search_mode: SearchMode::Depth,
        }
    }
}

/// What a finished depth found.
pub struct SearchSummary {
    pub depth: u8,
    /// The deepest ply that was reached.
    pub seldepth: u8,
    /// Milliseconds since the search began.
    pub time: u128,
    /// The score in hundredths of a pawn, as the side to move sees it.
    pub cp: i16,
    pub mate: u8,
    /// Nodes searched since the search began.
    pub nodes: usize,
    /// Nodes searched in a second.
    pub nps: usize,
    /// The line of best moves, one for each ply.
    pub pv: Vec<Move>,
}

/// What the search reports.
pub enum SearchReport {
    /// The search is over: the move to play, and why the search ended.
    Finished(Move, SearchTerminate),
    /// A depth is finished.
    SearchSummary(SearchSummary),
}

/// What reaches the engine from its workers.
pub enum Information {
    Search(SearchReport),
}

/// What one search keeps while it runs.
pub struct SearchInfo {
    pub start_time: Instant,
    pub depth: u8,
    pub seldepth: u8,
    pub nodes: usize,
    pub ply: u8,
    pub best_move: Move,
    pub pv: Vec<Move>,
    pub terminate: SearchTerminate,
    /// The time that the search may take, in milliseconds.
    pub allocated_time: u128,
    /// Whether the engine no longer listens to reports.
    pub disconnected: bool,
    /// What was reported of each finished depth, in the order of the reports.
    pub summaries: Vec<SearchSummary>,
}

/// `Instant` of std: a moment in time. Nothing of what is inside it is
/// known here.
#[verifier::external_type_specification]
#[verifier::external_body]
pub struct ExInstant(Instant);

/// `Sender` of crossbeam-channel: the end of a channel into which messages
/// are put. Nothing of what is inside it is known here.
#[verifier::external_type_specification]
#[verifier::external_body]
#[verifier::reject_recursive_types(T)]
pub struct ExSender<T>(Sender<T>);

/// `Receiver` of crossbeam-channel: the end of a channel from which
/// messages are taken. Nothing of what is inside it is known here.
#[verifier::external_type_specification]
#[verifier::external_body]
#[verifier::reject_recursive_types(T)]
pub struct ExReceiver<T>(Receiver<T>);

/// `Instant::now` of std: the present moment. Nothing is claimed of it.
#[verifier::external_body]
pub(crate) fn timer_now() -> Instant {
    Instant::now()
}

/// `Instant::elapsed` of std: the time since `start`. Nothing is claimed of
/// it.
#[verifier::external_body]
pub(crate) fn timer_elapsed(start: &Instant) -> Duration {
    start.elapsed()
}

/// `Duration::as_millis` of std: the whole milliseconds of a duration.
/// Nothing is claimed of the number.
#[verifier::external_body]
pub(crate) fn duration_millis(duration: &Duration) -> u128 {
    duration.as_millis()
}

/// `Sender::try_send` of crossbeam-channel: hands `message` to the channel
/// without waiting, and says whether the channel took it. It does not take
/// it when the receiver is gone, or when a bounded channel is full. Nothing
/// is claimed of the answer.
#[verifier::external_body]
pub(crate) fn channel_send<T>(sender: &Sender<T>, message: T) -> bool {
    sender.try_send(message).is_ok()
}

/// `Receiver::try_recv` of crossbeam-channel: takes the next message from
/// the channel if one is waiting. Nothing is claimed of what comes, nor of
/// whether anything comes.
#[verifier::external_body]
pub(crate) fn channel_poll<T>(receiver: &Receiver<T>) -> Option<T> {
    receiver.try_recv().ok()
}

impl SearchInfo {
    /// The state of a search that begins now.
    pub fn new() -> (info: SearchInfo)
        ensures
            info.depth == 0,
            info.seldepth == 0,
            info.nodes == 0,
            info.ply == 0,
            info.best_move == (Move { data: 0 }),
            info.pv@.len() == 0,
            info.terminate == SearchTerminate::Nothing,
            info.allocated_time == 0,
            !info.disconnected,
            info.summaries@.len() == 0,
    {
        SearchInfo {
            start_time: timer_now(),
            depth: 0,
            seldepth: 0,
            nodes: 0,
            ply: 0,
            best_move: Move { data: 0 },
            pv: Vec::new(),
            terminate: SearchTerminate::Nothing,
            allocated_time: 0,
            disconnected: false,
            summaries: Vec::new(),
        }
    }

    /// Milliseconds since the search began.
    pub fn timer_elapsed(&self) -> u128 {
        let duration = timer_elapsed(&self.start_time);
        duration_millis(&duration)
    }
}

} // verus!
