//! The engine: the position that is played on, and what becomes of it when
//! the front end reports something.

pub mod comm_reports;
pub mod defs;

use crate::board::playmove::{lemma_make_played, lemma_make_unmake};
use crate::board::{Board, BoardView};
use crate::engine::defs::MoveRequest;
use crate::fen::{fen_read, parse_fen, FenError};
use crate::move_boards::MoveBoard;
use crate::movegen::gen::all_moves;
use crate::movegen::movedefs::{Move, MoveList};
use crate::search::alpha_beta::lemma_move_list;
use vstd::prelude::*;
use vstd::string::StringSliceAdditionalSpecFns;

verus! {

/// The engine's settings.
#[derive(Clone, Copy, Debug, PartialEq, Eq)]
pub struct Settings {
    threads: u8,
}

impl Settings {
    /// The number of threads that the engine may use.
    pub closed spec fn spec_threads(&self) -> u8 {
        self.threads
    }

    /// Settings with this number of threads.
    pub fn new(threads: u8) -> (settings: Settings)
        ensures
            settings.spec_threads() == threads,
    {
        Settings { threads }
    }

    /// The number of threads that the engine may use.
    #[verifier::when_used_as_spec(spec_threads)]
    pub fn threads(&self) -> (threads: u8)
        ensures
            threads == self.spec_threads(),
    {
        self.threads
    }
}

/// `m` is the move that the front end names.
pub open spec fn requested(m: Move, request: MoveRequest) -> bool {
    m.spec_from() == request.from && m.spec_to() == request.to && m.spec_promoted()
        == request.promotion
}

/// The first of the first `n` moves that the front end names, if there is
/// one.
pub open spec fn find_move(moves: Seq<Move>, request: MoveRequest, n: nat) -> Option<Move>
    decreases n,
{
    if n == 0 {
        None
    } else {
        match find_move(moves, request, (n - 1) as nat) {
            Some(m) => Some(m),
            None => if requested(moves[n - 1], request) {
                Some(moves[n - 1])
            } else {
                None
            },
        }
    }
}

/// The move that the front end names, if the position has it and it is
/// legal.
pub open spec fn playable(v: BoardView, request: MoveRequest) -> Option<Move> {
    match find_move(v.move_list(), request, v.move_list().len()) {
        Some(m) => if v.legal(m) {
            Some(m)
        } else {
            None
        },
        None => None,
    }
}

/// The position after the front end has named a move: the move is made if
/// it can be played, and else nothing happens.
pub open spec fn after_request(v: BoardView, request: MoveRequest) -> BoardView {
    match playable(v, request) {
        Some(m) => v.make(m),
        None => v,
    }
}

/// The position after the front end has asked to take a move back: the
/// last move is taken back if there is one.
pub open spec fn after_takeback(v: BoardView) -> BoardView {
    if v.history.len() > 0 {
        v.unmake()
    } else {
        v
    }
}

/// The engine: its settings, the position that is played on, the attack
/// tables, and whether it has been told to quit.
pub struct Engine {
    settings: Settings,
    board: Board,
    mb: MoveBoard,
    quit: bool,
}

impl Engine {
    /// The position is well-formed with every move of its history to be
    /// taken back, and the attack tables are filled in. An engine is so
    /// when it is made, and stays so whatever is done to it.
    pub closed spec fn wf(&self) -> bool {
        self.board.wf() && self.board@.played() && self.mb.wf()
    }

    /// The position that is played on.
    pub closed spec fn position(&self) -> BoardView {
        self.board@
    }

    /// Whether the engine has been told to quit.
    pub closed spec fn has_quit(&self) -> bool {
        self.quit
    }

    /// An engine with the empty board.
    pub fn new(settings: Settings) -> (engine: Engine)
        ensures
            engine.wf(),
            engine.spec_settings() == settings,
            !engine.has_quit(),
            engine.position().history.len() == 0,
            forall|i: int| 0 <= i < 64 ==> engine.position().squares[i] is None,
    {
        Self { settings, board: Board::new(), mb: MoveBoard::new(), quit: false }
    }

    /// The engine's settings.
    pub closed spec fn spec_settings(&self) -> Settings {
        self.settings
    }

    /// The engine's settings.
    #[verifier::when_used_as_spec(spec_settings)]
    pub fn settings(&self) -> (settings: Settings)
        ensures
            settings == self.spec_settings(),
    {
        self.settings
    }

    /// The position that is played on.
    pub fn board(&self) -> (board: &Board)
        requires
            self.wf(),
        ensures
            board@ == self.position(),
            board.wf(),
    {
        &self.board
    }

    /// The attack tables.
    pub fn move_board(&self) -> (mb: &MoveBoard)
        requires
            self.wf(),
        ensures
            mb.wf(),
    {
        &self.mb
    }

    /// Takes note that the engine has been told to quit.
    pub(crate) fn set_quit(&mut self)
        requires
            old(self).wf(),
        ensures
            final(self).wf(),
            final(self).spec_settings() == old(self).spec_settings(),
            final(self).has_quit(),
            final(self).position() == old(self).position(),
    {
        self.quit = true;
    }

    /// Whether the engine has been told to quit.
    pub fn quit(&self) -> (quit: bool)
        ensures
            quit == self.has_quit(),
    {
        self.quit
    }

    /// Sets up the position that the text describes. If the text is not in
    /// order, the position stays what it was.
    pub fn setup(&mut self, fen_string: &str) -> (result: Result<(), FenError>)
        requires
            old(self).wf(),
        ensures
            final(self).wf(),
            final(self).spec_settings() == old(self).spec_settings(),
            final(self).has_quit() == old(self).has_quit(),
            match parse_fen(fen_string.spec_bytes()) {
                Ok(position) => {
                    &&& result is Ok
                    &&& final(self).position().squares == position.squares
                    &&& final(self).position().state.active_color == position.active_color
                    &&& final(self).position().state.castling == position.castling
                    &&& final(self).position().state.en_passant == position.en_passant
                    &&& final(self).position().state.halfmove_clock == position.halfmove_clock
                    &&& final(self).position().state.fullmove_number == position.fullmove_number
                    &&& final(self).position().history.len() == 0
                },
                Err(e) => result == Err::<(), FenError>(e) && final(self).position() == old(
                    self,
                ).position(),
            },
    {
        fen_read(fen_string, &mut self.board)
    }

    /// Plays the move that the front end names, if the position has it and
    /// it is legal, and says whether it did.
    pub fn execute_move(&mut self, request: MoveRequest) -> (done: bool)
        requires
            old(self).wf(),
        ensures
            final(self).wf(),
            final(self).spec_settings() == old(self).spec_settings(),
            final(self).position() == after_request(old(self).position(), request),
            done == playable(old(self).position(), request) is Some,
            final(self).has_quit() == old(self).has_quit(),
    {
        let ghost v = self.board@;
        let mut list = MoveList::new();
        all_moves(&self.board, &self.mb, &mut list);
        proof {
            lemma_move_list(v);
        }
        let count: u8 = list.len();
        let mut i: u8 = 0;
        let mut found: Option<Move> = None;
        while i < count && found.is_none()
            invariant
                i <= count,
                count == list@.len(),
                list@ == v.move_list(),
                found == find_move(v.move_list(), request, i as nat),
            decreases count - i,
        {
            let m: Move = list.get_move(i);
            if m.from() == request.from && m.to() == request.to && m.promoted()
                == request.promotion {
                found = Some(m);
            }
            i += 1;
        }
        proof {
            lemma_find_move_stays(v.move_list(), request, i as nat, count as nat);
        }
        match found {
            Some(m) => {
                proof {
                    lemma_found_is_listed(v.move_list(), request, count as nat);
                    lemma_make_unmake(v, m);
                    lemma_make_played(v, m);
                }
                let legal: bool = self.board.make(m, &self.mb);
                if !legal {
                    self.board.unmake();
                }
                legal
            },
            None => false,
        }
    }

    /// Takes the last move back, if there is one, and says whether there
    /// was.
    pub fn takeback_move(&mut self) -> (done: bool)
        requires
            old(self).wf(),
        ensures
            final(self).wf(),
            final(self).spec_settings() == old(self).spec_settings(),
            final(self).position() == after_takeback(old(self).position()),
            done == (old(self).position().history.len() > 0),
            final(self).has_quit() == old(self).has_quit(),
    {
        if self.board.history.len() > 0 {
            self.board.unmake();
            true
        } else {
            false
        }
    }
}

/// A move that was found stays the one that is found.
proof fn lemma_find_move_stays(moves: Seq<Move>, request: MoveRequest, fewer: nat, more: nat)
    requires
        fewer <= more,
        fewer == more || find_move(moves, request, fewer) is Some,
    ensures
        find_move(moves, request, more) == find_move(moves, request, fewer),
    decreases more,
{
    if fewer < more {
        lemma_find_move_stays(moves, request, fewer, (more - 1) as nat);
    }
}

/// A move that was found is one of the moves.
proof fn lemma_found_is_listed(moves: Seq<Move>, request: MoveRequest, n: nat)
    requires
        n <= moves.len(),
    ensures
        find_move(moves, request, n) matches Some(m) ==> exists|j: int|
            0 <= j < n && #[trigger] moves[j] == m,
    decreases n,
{
    if n > 0 {
        lemma_found_is_listed(moves, request, (n - 1) as nat);
        if find_move(moves, request, (n - 1) as nat) is None && requested(moves[n - 1], request) {
            assert(moves[n - 1] == moves[n - 1]);
        }
    }
}

} // verus!
