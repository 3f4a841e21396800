//! The alpha-beta search, and the value that it finds.

use crate::board::playmove::lemma_make_unmake;
use crate::board::{Board, BoardView};
use crate::defs::{BLACK, WHITE};
use crate::evaluation::{evaluate_position, evaluation};
use crate::move_boards::MoveBoard;
use crate::movegen::gen::{all_moves, fill};
use crate::movegen::info::{in_check, king_attacked};
use crate::movegen::movedefs::{Move, MoveList};
use crate::movegen::sound::{all_accepted, lemma_all_moves_accepted};
use crate::search::defs::{
    channel_poll, SearchControl, SearchInfo, SearchMode, SearchParams, SearchTerminate, CHECKMATE,
    CHECK_TERMINATION, INF, MAX_DEPTH, STALEMATE,
};
use crate::search::time::is_up;
use crate::search::Search;
use crossbeam_channel::Receiver;
use vstd::prelude::*;

verus! {

impl BoardView {
    /// The moves that a search looks at: the generated ones, as far as a
    /// move list holds them.
    #[verifier::opaque]
    pub open spec fn move_list(self) -> Seq<Move> {
        fill(Seq::empty(), self.all_moves())
    }

    /// The move leaves no king of the side that makes it attacked.
    pub open spec fn legal(self, m: Move) -> bool {
        !in_check(self.make(m).squares, self.us())
    }

    /// The evaluation as the side to move sees it.
    pub open spec fn leaf_score(self) -> int {
        if self.us() == WHITE {
            evaluation(self.squares)
        } else {
            -evaluation(self.squares)
        }
    }

    /// The value of the position for the side to move when both sides play
    /// the best moves for `depth` plies: the evaluation at depth zero and
    /// at the deepest ply; else the best of the values that the legal moves
    /// lead to, each the opposite of what the opponent can get; and without
    /// a legal move, mate at this ply if the king is attacked, and
    /// stalemate if not.
    pub open spec fn negamax(self, depth: nat, ply: nat) -> int
        decreases depth, self.move_list().len() + 1,
    {
        if depth == 0 || ply >= MAX_DEPTH {
            self.leaf_score()
        } else {
            match self.best_reply(depth, ply, self.move_list().len()) {
                Some(score) => score,
                None => if in_check(self.squares, self.us()) {
                    -CHECKMATE + ply
                } else {
                    STALEMATE as int
                },
            }
        }
    }

    /// The best of the values that the legal ones among the first `n`
    /// moves lead to, if one of them is legal.
    pub open spec fn best_reply(self, depth: nat, ply: nat, n: nat) -> Option<int>
        decreases depth, n,
    {
        if n == 0 || depth == 0 {
            None
        } else {
            let m = self.move_list()[n - 1];
            let rest = self.best_reply(depth, ply, (n - 1) as nat);
            if self.legal(m) {
                let score = -self.make(m).negamax((depth - 1) as nat, ply + 1);
                match rest {
                    Some(best) => if score > best {
                        Some(score)
                    } else {
                        Some(best)
                    },
                    None => Some(score),
                }
            } else {
                rest
            }
        }
    }
}

/// What a score found with the window from `alpha` to `beta` says of the
/// value: inside the window it is the value; at or below `alpha` the value
/// is no more than `alpha`; at or above `beta` the value is no less than
/// `beta`.
pub open spec fn bounds(score: int, alpha: int, beta: int, value: int) -> bool {
    &&& alpha < score < beta ==> score == value
    &&& score <= alpha ==> value <= alpha
    &&& score >= beta ==> value >= beta
}

/// The list holds the generated moves up to its capacity, and the position
/// accepts each of them.
pub proof fn lemma_move_list(v: BoardView)
    requires
        v.wf(),
    ensures
        v.move_list() == fill(Seq::empty(), v.all_moves()),
        v.move_list().len() <= 255,
        all_accepted(v, v.move_list()),
{
    reveal(BoardView::move_list);
    lemma_all_moves_accepted(v);
    let all = v.all_moves();
    assert(Seq::<Move>::empty() + all =~= all);
    assert forall|i: int| 0 <= i < v.move_list().len() implies v.accepts(
        #[trigger] v.move_list()[i],
    ) by {
        assert(v.move_list()[i] == all[i]);
    }
}

/// No value is further from zero than the score of mate.
pub proof fn lemma_negamax_bounded(v: BoardView, depth: nat, ply: nat)
    requires
        ply <= MAX_DEPTH,
    ensures
        -CHECKMATE <= v.negamax(depth, ply) <= CHECKMATE,
    decreases depth, v.move_list().len() + 1,
{
    if depth == 0 || ply >= MAX_DEPTH {
    } else {
        lemma_best_reply_bounded(v, depth, ply, v.move_list().len());
    }
}

/// No value of a reply is further from zero than the score of mate.
pub proof fn lemma_best_reply_bounded(v: BoardView, depth: nat, ply: nat, n: nat)
    requires
        ply < MAX_DEPTH,
    ensures
        v.best_reply(depth, ply, n) matches Some(score) ==> -CHECKMATE <= score <= CHECKMATE,
    decreases depth, n,
{
    if n == 0 || depth == 0 {
    } else {
        let m = v.move_list()[n - 1];
        lemma_best_reply_bounded(v, depth, ply, (n - 1) as nat);
        if v.legal(m) {
            lemma_negamax_bounded(v.make(m), (depth - 1) as nat, ply + 1);
        }
    }
}

/// More moves give no worse a best reply.
pub proof fn lemma_best_reply_grows(v: BoardView, depth: nat, ply: nat, fewer: nat, more: nat)
    requires
        fewer <= more,
        v.best_reply(depth, ply, fewer) is Some,
    ensures
        v.best_reply(depth, ply, more) matches Some(score) && score >= v.best_reply(
            depth,
            ply,
            fewer,
        )->0,
    decreases more,
{
    if fewer < more {
        lemma_best_reply_grows(v, depth, ply, fewer, (more - 1) as nat);
    }
}

/// Whether there is a legal move among the first `n` does not depend on
/// the depth.
pub proof fn lemma_legal_at_any_depth(v: BoardView, one: nat, other: nat, n: nat)
    requires
        one > 0,
        other > 0,
    ensures
        v.best_reply(one, 0, n) is Some <==> v.best_reply(other, 0, n) is Some,
    decreases n,
{
    if n > 0 {
        lemma_legal_at_any_depth(v, one, other, (n - 1) as nat);
    }
}

/// What the flag that ends a search is after a look for commands and at the
/// clock: a flag that is set stays; a command to stop or to quit sets it;
/// and a search that is bounded by time is stopped when the time is up.
pub open spec fn termination_after(
    current: SearchTerminate,
    cmd: Option<SearchControl>,
    timed: bool,
    time_up: bool,
) -> SearchTerminate {
    if current != SearchTerminate::Nothing {
        current
    } else if cmd == Some(SearchControl::Stop) {
        SearchTerminate::Stop
    } else if cmd == Some(SearchControl::Quit) {
        SearchTerminate::Quit
    } else if timed && time_up {
        SearchTerminate::Stop
    } else {
        SearchTerminate::Nothing
    }
}

/// What the flag that ends a search is after a look for commands and at the
/// clock, when the command `cmd` has come (or none) and the search, which
/// was given `allocated` milliseconds, has run for `elapsed`. A search to a
/// depth is not bounded by time; every other search is.
pub open spec fn termination_at(
    current: SearchTerminate,
    cmd: Option<SearchControl>,
    mode: SearchMode,
    elapsed: u128,
    allocated: u128,
) -> SearchTerminate {
    termination_after(current, cmd, mode != SearchMode::Depth, is_up(elapsed, allocated))
}

impl Search {
    /// What the flag that ends a search is after the command `cmd` has come
    /// (or none), for a search that is bounded by time or not, whose time is
    /// up or not.
    pub fn decide_termination(
        current: SearchTerminate,
        cmd: Option<SearchControl>,
        timed: bool,
        time_up: bool,
    ) -> (next: SearchTerminate)
        ensures
            next == termination_after(current, cmd, timed, time_up),
    {
        match current {
            SearchTerminate::Nothing => {
                match cmd {
                    Some(SearchControl::Stop) => SearchTerminate::Stop,
                    Some(SearchControl::Quit) => SearchTerminate::Quit,
                    _ => {
                        if timed && time_up {
                            SearchTerminate::Stop
                        } else {
                            SearchTerminate::Nothing
                        }
                    },
                }
            },
            _ => current,
        }
    }

    /// Looks for a command and at the clock, and sets the flag that ends the
    /// search if there is a reason. The channel says which command has come,
    /// if any, and the clock how long the search has run: the flag becomes
    /// what `decide_termination` gives for that command and that time. So a
    /// flag that is set stays, and a search that is bounded by time and was
    /// given none is ended whatever comes; nothing else of the state changes.
    pub fn check_termination(
        params: &SearchParams,
        info: &mut SearchInfo,
        control_rx: &Receiver<SearchControl>,
    )
        ensures
            exists|cmd: Option<SearchControl>, elapsed: u128|
                final(info).terminate == #[trigger] termination_at(
                    old(info).terminate,
                    cmd,
                    params.search_mode,
                    elapsed,
                    old(info).allocated_time,
                ),
            old(info).terminate != SearchTerminate::Nothing ==> final(info).terminate == old(
                info,
            ).terminate,
            unchanged_but_flag(*old(info), *final(info)),
    {
        let cmd: Option<SearchControl> = channel_poll(control_rx);
        let timed: bool = match params.search_mode {
            SearchMode::Depth => false,
            _ => true,
        };
        let time_up: bool = timed && Search::out_of_time(info);
        let ghost elapsed: u128 = if timed {
            choose|elapsed: u128| time_up == #[trigger] is_up(elapsed, info.allocated_time)
        } else {
            0
        };
        let next: SearchTerminate = Search::decide_termination(info.terminate, cmd, timed, time_up);
        assert(next == termination_at(
            info.terminate,
            cmd,
            params.search_mode,
            elapsed,
            info.allocated_time,
        ));
        info.terminate = next;
    }
}

/// Nothing but the flag that ends the search differs.
pub open spec fn unchanged_but_flag(before: SearchInfo, after: SearchInfo) -> bool {
    after == (SearchInfo { terminate: after.terminate, ..before })
}

/// What a search leaves of its state as it was: everything but the counts
/// of nodes and of the deepest ply, which do not fall, the best move, and
/// the flag that ends the search, which is not cleared.
pub open spec fn search_progress(before: SearchInfo, after: SearchInfo) -> bool {
    &&& after.start_time == before.start_time
    &&& after.depth == before.depth
    &&& after.ply == before.ply
    &&& after.allocated_time == before.allocated_time
    &&& after.disconnected == before.disconnected
    &&& after.summaries == before.summaries
    &&& after.pv == before.pv
    &&& after.nodes >= before.nodes
    &&& after.seldepth >= before.seldepth
    &&& (before.terminate != SearchTerminate::Nothing ==> after.terminate == before.terminate)
}

/// `m` is one of the moves of the list, it is legal, and it leads to the
/// value `score`.
pub open spec fn is_best_move(v: BoardView, depth: nat, ply: nat, m: Move, score: int) -> bool {
    exists|j: int|
        0 <= j < v.move_list().len() && #[trigger] v.move_list()[j] == m && v.legal(m)
            && -v.make(m).negamax((depth - 1) as nat, ply + 1) == score
}

/// `line` is a principal variation of the position at `depth`: it is empty
/// where the search goes no further or there is no legal move; else it
/// begins with a best move, and goes on with a principal variation of the
/// position after that move.
pub open spec fn is_line(v: BoardView, depth: nat, ply: nat, line: Seq<Move>) -> bool
    decreases depth,
{
    if depth == 0 || ply >= MAX_DEPTH || v.best_reply(depth, ply, v.move_list().len()) is None {
        line.len() == 0
    } else {
        line.len() >= 1 && is_best_move(v, depth, ply, line[0], v.negamax(depth, ply)) && is_line(
            v.make(line[0]),
            (depth - 1) as nat,
            ply + 1,
            line.drop_first(),
        )
    }
}

/// The position is well-formed and accepts `m`: the move can be made.
#[verifier::opaque]
pub open spec fn makeable(v: BoardView, m: Move) -> bool {
    v.wf() && v.accepts(m)
}

/// The position is well-formed and accepts each move of its list.
#[verifier::opaque]
pub open spec fn list_makeable(v: BoardView) -> bool {
    forall|i: int| 0 <= i < v.move_list().len() ==> makeable(v, #[trigger] v.move_list()[i])
}

/// Each move of the list of a well-formed position can be made.
pub proof fn lemma_list_makeable(v: BoardView)
    requires
        v.wf(),
    ensures
        list_makeable(v),
        v.move_list() == fill(Seq::empty(), v.all_moves()),
        v.move_list().len() <= 255,
{
    reveal(makeable);
    reveal(list_makeable);
    lemma_move_list(v);
}

impl Search {
    /// Makes the move `m`, searches what it leads to with the window from
    /// `alpha` to `beta` turned round, and takes the move back. Returns
    /// whether the move is legal, and, if it is, a score that bounds the
    /// value that the move leads to; `node_pv` then holds the line that
    /// follows the move.
    fn search_move(
        m: Move,
        depth: u8,
        alpha: i16,
        beta: i16,
        node_pv: &mut Vec<Move>,
        board: &mut Board,
        mb: &MoveBoard,
        params: &SearchParams,
        info: &mut SearchInfo,
        control_rx: &Receiver<SearchControl>,
    ) -> (found: Option<i16>)
        requires
            old(board).consistent(),
            makeable(old(board)@, m),
            mb.wf(),
            depth > 0,
            -INF <= alpha < beta <= INF,
            old(info).ply < MAX_DEPTH,
            old(node_pv)@.len() == 0,
        ensures
            final(board).wf(),
            final(board)@ == old(board)@,
            search_progress(*old(info), *final(info)),
            final(info).best_move == old(info).best_move,
            found is Some <==> old(board)@.legal(m),
            found matches Some(score) ==> -INF <= score <= INF && (final(info).terminate
                == SearchTerminate::Nothing ==> bounds(
                score as int,
                alpha as int,
                beta as int,
                -old(board)@.make(m).negamax((depth - 1) as nat, (old(info).ply + 1) as nat),
            )),
            found matches Some(score) ==> (final(info).terminate == SearchTerminate::Nothing
                && alpha < score < beta ==> is_line(
                old(board)@.make(m),
                (depth - 1) as nat,
                (old(info).ply + 1) as nat,
                final(node_pv)@,
            )),
        decreases depth, 0nat,
    {
        let ghost v = board@;
        proof {
            reveal(makeable);
            lemma_make_unmake(v, m);
        }
        let is_legal: bool = board.make(m, mb);
        let found: Option<i16> = if is_legal {
            let best_before: Move = info.best_move;
            info.ply += 1;
            let reply: i16 = Search::alpha_beta(
                depth - 1,
                -beta,
                -alpha,
                node_pv,
                board,
                mb,
                params,
                info,
                control_rx,
            );
            info.ply -= 1;
            info.best_move = best_before;
            Some(-reply)
        } else {
            None
        };
        proof {
            assert(v.make(m) == board@);
        }
        board.unmake();
        found
    }

    /// Searches the position to `depth` plies with the window from `alpha`
    /// to `beta`, and returns a score that bounds the value of the
    /// position. The position is left as it was. A search that is stopped
    /// on the way returns a score that says nothing.
    #[verifier::spinoff_prover]
    #[verifier::rlimit(100)]
    pub fn alpha_beta(
        depth: u8,
        alpha: i16,
        beta: i16,
        pv: &mut Vec<Move>,
        board: &mut Board,
        mb: &MoveBoard,
        params: &SearchParams,
        info: &mut SearchInfo,
        control_rx: &Receiver<SearchControl>,
    ) -> (score: i16)
        requires
            old(board).wf(),
            mb.wf(),
            -INF <= alpha < beta <= INF,
            old(info).ply <= MAX_DEPTH,
        ensures
            final(board).wf(),
            final(board)@ == old(board)@,
            search_progress(*old(info), *final(info)),
            old(info).ply > 0 ==> final(info).best_move == old(info).best_move,
            final(info).terminate == SearchTerminate::Nothing && old(board)@.best_reply(
                depth as nat,
                old(info).ply as nat,
                old(board)@.move_list().len(),
            ) is None ==> final(info).best_move == old(info).best_move,
            -INF <= score <= INF,
            final(info).terminate == SearchTerminate::Nothing ==> bounds(
                score as int,
                alpha as int,
                beta as int,
                old(board)@.negamax(depth as nat, old(info).ply as nat),
            ),
            final(info).terminate == SearchTerminate::Nothing && alpha < score < beta ==> if depth
                == 0 || old(info).ply >= MAX_DEPTH || old(board)@.best_reply(
                depth as nat,
                old(info).ply as nat,
                old(board)@.move_list().len(),
            ) is None {
                final(pv)@ == old(pv)@
            } else {
                is_line(old(board)@, depth as nat, old(info).ply as nat, final(pv)@) && (old(
                    info,
                ).ply == 0 ==> final(info).best_move == final(pv)@[0])
            },
        decreases depth, 1nat,
    {
        let ghost v = board@;
        let ghost ply = info.ply as nat;
        let ghost info0 = *info;
        if info.nodes & CHECK_TERMINATION == 0 {
            Search::check_termination(params, info, control_rx);
        }
        if info.terminate != SearchTerminate::Nothing {
            return 0;
        }
        proof {
            lemma_negamax_bounded(v, depth as nat, ply);
        }
        if depth == 0 || info.ply >= MAX_DEPTH {
            let value: i16 = evaluate_position(board);
            return if board.us() == BLACK {
                -value
            } else {
                value
            };
        }
        if info.nodes < usize::MAX {
            info.nodes += 1;
        }
        if info.ply > info.seldepth {
            info.seldepth = info.ply;
        }
        let us: usize = board.us();
        let mut move_list = MoveList::new();
        all_moves(board, mb, &mut move_list);
        let count: u8 = move_list.len();
        let mut legal_moves_found: u8 = 0;
        let mut best: i16 = alpha;
        let mut i: u8 = 0;
        proof {
            lemma_list_makeable(v);
        }
        while i < count
            invariant
                board.wf(),
                board@ == v,
                v == old(board)@,
                info0 == *old(info),
                mb.wf(),
                list_makeable(v),
                move_list@ == v.move_list(),
                count == move_list@.len(),
                i <= count,
                legal_moves_found <= i,
                depth > 0,
                ply == info.ply,
                ply < MAX_DEPTH,
                -INF <= alpha <= best < beta <= INF,
                info.terminate == SearchTerminate::Nothing,
                search_progress(info0, *info),
                ply > 0 ==> info.best_move == info0.best_move,
                legal_moves_found == 0 ==> info.best_move == info0.best_move && best == alpha,
                v.best_reply(depth as nat, ply, i as nat) is None <==> legal_moves_found == 0,
                v.best_reply(depth as nat, ply, i as nat) matches Some(t) ==> t <= best,
                best > alpha ==> v.best_reply(depth as nat, ply, i as nat) == Some(best as int),
                best == alpha ==> pv@ == old(pv)@,
                best > alpha ==> pv@.len() >= 1 && is_best_move(
                    v,
                    depth as nat,
                    ply,
                    pv@[0],
                    best as int,
                ) && is_line(v.make(pv@[0]), (depth - 1) as nat, ply + 1, pv@.drop_first()) && (ply
                    == 0 ==> info.best_move == pv@[0]),
            decreases count - i,
        {
            let current_move: Move = move_list.get_move(i);
            proof {
                assert(makeable(v, current_move)) by {
                    reveal(list_makeable);
                }
                lemma_negamax_bounded(v.make(current_move), (depth - 1) as nat, ply + 1);
            }
            let mut node_pv: Vec<Move> = Vec::new();
            let found: Option<i16> = Search::search_move(
                current_move,
                depth,
                best,
                beta,
                &mut node_pv,
                board,
                mb,
                params,
                info,
                control_rx,
            );
            if info.terminate != SearchTerminate::Nothing {
                return 0;
            }
            match found {
                Some(eval_score) => {
                    legal_moves_found += 1;
                    if eval_score >= beta {
                        proof {
                            lemma_best_reply_grows(
                                v,
                                depth as nat,
                                ply,
                                (i + 1) as nat,
                                count as nat,
                            );
                        }
                        return beta;
                    }
                    if eval_score > best {
                        best = eval_score;
                        let ghost rest = node_pv@;
                        pv.clear();
                        pv.push(current_move);
                        pv.append(&mut node_pv);
                        assert(pv@.drop_first() =~= rest);
                        if info.ply == 0 {
                            info.best_move = current_move;
                        }
                    }
                },
                None => {},
            }
            i += 1;
        }
        if legal_moves_found == 0 {
            if king_attacked(board, mb, us) {
                -CHECKMATE + (info.ply as i16)
            } else {
                STALEMATE
            }
        } else {
            best
        }
    }
}

} // verus!
