//! Iterative deepening: the search is run to depth one, then two, and so
//! on, until it has reached the depth asked for or is stopped. Each
//! finished depth is reported; a depth that was not finished counts for
//! nothing.

use crate::board::{Board, BoardView};
use crate::move_boards::MoveBoard;
use crate::movegen::movedefs::Move;
use crate::search::alpha_beta::{is_line, lemma_negamax_bounded};
use crate::search::defs::{
    channel_send, Information, SearchControl, SearchInfo, SearchMode, SearchParams, SearchReport,
    SearchSummary, SearchTerminate, INF, MAX_DEPTH,
};
use crate::search::time::clocks_ok;
use crate::search::Search;
use crossbeam_channel::{Receiver, Sender};
use vstd::prelude::*;

verus! {

/// What a search returns: the move to play, and why the search ended.
pub type SearchResult = (Move, SearchTerminate);

/// The nodes searched in a second when `nodes` were searched in `msecs`
/// milliseconds, rounded to the nearest whole number; nothing when no time
/// has passed; and no more than the largest count there is.
pub open spec fn spec_nodes_per_second(nodes: int, msecs: int) -> int {
    if msecs <= 0 {
        0
    } else {
        let rounded = (2 * (nodes * 1000) + msecs) / (2 * msecs);
        if rounded > usize::MAX {
            usize::MAX as int
        } else {
            rounded
        }
    }
}

/// What the summary of depth `depth` of a search of the position `v` says:
/// the value of the position at that depth; no mate count; the speed that
/// its nodes and time make; and a principal variation of that depth.
pub open spec fn summary_of_depth(v: BoardView, summary: SearchSummary, depth: nat) -> bool {
    &&& summary.depth == depth
    &&& summary.cp == v.negamax(depth, 0)
    &&& summary.mate == 0
    &&& summary.nps == spec_nodes_per_second(summary.nodes as int, summary.time as int)
    &&& is_line(v, depth, 0, summary.pv@)
}

/// What the summaries of a search of the position `v` say: the first is of
/// depth one and each next of the next depth, and the counts of nodes do
/// not fall.
pub open spec fn summaries_in_order(v: BoardView, summaries: Seq<SearchSummary>) -> bool {
    &&& forall|i: int|
        0 <= i < summaries.len() ==> summary_of_depth(v, #[trigger] summaries[i], (i + 1) as nat)
    &&& forall|i: int, j: int|
        0 <= i <= j < summaries.len() ==> (#[trigger] summaries[i]).nodes
            <= (#[trigger] summaries[j]).nodes
}

/// The move to play after a search: the first move of the line of the last
/// depth that was finished; the empty move if no depth was finished, or
/// there is no legal move.
pub open spec fn move_to_play(summaries: Seq<SearchSummary>) -> Move {
    if summaries.len() > 0 && summaries.last().pv@.len() > 0 {
        summaries.last().pv@[0]
    } else {
        Move { data: 0 }
    }
}

/// The time that a search of the position `v` allows itself: nothing new
/// for a search to a depth; the time for the move, if one is set; and else
/// the slice of the clock of the side to move, if there is any.
pub open spec fn allocated(v: BoardView, params: SearchParams, before: u128) -> u128 {
    match params.search_mode {
        SearchMode::Depth => before,
        SearchMode::MoveTime => params.move_time,
        SearchMode::GameTime => {
            let white = v.us() == crate::defs::WHITE;
            let moves = match params.game_time.moves_to_go {
                Some(x) => x as int,
                None => crate::search::time::estimated_moves_to_go(white, v.history.len() as int),
            };
            let slice = if white {
                crate::search::time::time_slice(
                    params.game_time.wtime as int,
                    params.game_time.winc as int,
                    moves,
                )
            } else {
                crate::search::time::time_slice(
                    params.game_time.btime as int,
                    params.game_time.binc as int,
                    moves,
                )
            };
            if slice > 0 {
                slice as u128
            } else {
                0
            }
        },
    }
}

/// A copy of a line of moves.
fn copy_moves(moves: &Vec<Move>) -> (copy: Vec<Move>)
    ensures
        copy@ == moves@,
{
    let mut copy: Vec<Move> = Vec::new();
    let mut i: usize = 0;
    while i < moves.len()
        invariant
            i <= moves@.len(),
            copy@ == moves@.take(i as int),
        decreases moves@.len() - i,
    {
        copy.push(moves[i]);
        assert(moves@.take(i + 1) =~= moves@.take(i as int).push(moves@[i as int]));
        i += 1;
    }
    assert(moves@.take(moves@.len() as int) =~= moves@);
    copy
}

impl Search {
    /// The nodes searched in a second.
    pub fn nodes_per_second(nodes: usize, msecs: u128) -> (nps: usize)
        ensures
            nps == spec_nodes_per_second(nodes as int, msecs as int),
    {
        if msecs == 0 {
            return 0;
        }
        let scaled: u128 = (nodes as u128) * 1000;
        let whole: u128 = scaled / msecs;
        let rest: u128 = scaled % msecs;
        proof {
            crate::search::time::lemma_rounded(scaled as int, msecs as int);
        }
        let rounded: u128 = if rest >= msecs - rest {
            whole + 1
        } else {
            whole
        };
        if rounded > usize::MAX as u128 {
            usize::MAX
        } else {
            rounded as usize
        }
    }

    /// Searches the position deeper and deeper, reports each finished depth
    /// to the engine, and returns the best move of the last finished depth
    /// with the reason for which the search ended. The position is left as
    /// it was. The counts and the summaries of the search state are begun
    /// anew; the flag that ends the search is taken as it is found. If the
    /// engine no longer listens, the search ends as if it were told to quit.
    pub fn iterative_deepening(
        board: &mut Board,
        mb: &MoveBoard,
        params: &SearchParams,
        info: &mut SearchInfo,
        control_rx: &Receiver<SearchControl>,
        report_tx: &Sender<Information>,
    ) -> (result: SearchResult)
        requires
            old(board).wf(),
            mb.wf(),
            params.search_mode == SearchMode::GameTime ==> clocks_ok(params.game_time),
        ensures
            final(board).wf(),
            final(board)@ == old(board)@,
            result.1 == final(info).terminate,
            final(info).summaries@.len() <= params.depth,
            final(info).summaries@.len() < MAX_DEPTH,
            summaries_in_order(old(board)@, final(info).summaries@),
            final(info).terminate == SearchTerminate::Nothing ==> final(info).summaries@.len() == (
            if params.depth < MAX_DEPTH {
                params.depth as int
            } else {
                MAX_DEPTH - 1
            }),
            result.0 == move_to_play(final(info).summaries@),
            final(info).allocated_time == allocated(
                old(board)@,
                *params,
                old(info).allocated_time,
            ),
            final(info).disconnected ==> final(info).terminate == SearchTerminate::Quit,
            final(info).ply == 0,
    {
        let ghost v = board@;
        let mut depth: u8 = 1;
        let mut interrupted: bool = false;
        let mut best_move: Move = Move { data: 0 };
        let mut temp_pv: Vec<Move> = Vec::new();

        info.ply = 0;
        info.nodes = 0;
        info.seldepth = 0;
        info.best_move = Move { data: 0 };
        info.disconnected = false;
        info.summaries = Vec::new();
        let ghost allocated_before = info.allocated_time;
        match params.search_mode {
            SearchMode::GameTime => {
                let slice: i128 = Search::allocate_time_slice(board, params);
                info.allocated_time = if slice > 0 {
                    slice as u128
                } else {
                    0
                };
            },
            SearchMode::MoveTime => {
                info.allocated_time = params.move_time;
            },
            SearchMode::Depth => {},
        }

        while (depth < MAX_DEPTH) && (depth <= params.depth) && !interrupted
            invariant
                board.wf(),
                board@ == v,
                mb.wf(),
                1 <= depth <= MAX_DEPTH,
                info.ply == 0,
                info.summaries@.len() == depth - 1,
                depth - 1 <= params.depth,
                summaries_in_order(v, info.summaries@),
                forall|i: int|
                    0 <= i < info.summaries@.len() ==> (#[trigger] info.summaries@[i]).nodes
                        <= info.nodes,
                interrupted ==> info.terminate != SearchTerminate::Nothing,
                info.allocated_time == allocated(v, *params, allocated_before),
                info.disconnected ==> info.terminate == SearchTerminate::Quit,
                !interrupted ==> (if depth == 1 {
                    temp_pv@.len() == 0
                } else {
                    is_line(v, (depth - 1) as nat, 0, temp_pv@)
                }),
                best_move == move_to_play(info.summaries@),
                !interrupted && best_move == (Move { data: 0 }) && (depth == 1 || v.best_reply(
                    (depth - 1) as nat,
                    0,
                    v.move_list().len(),
                ) is None) ==> info.best_move == best_move,
            decreases MAX_DEPTH - depth + (if interrupted { 0int } else { 1int }),
        {
            // Set the current depth
            info.depth = depth;
            proof {
                lemma_negamax_bounded(v, depth as nat, 0);
                if depth > 1 {
                    crate::search::alpha_beta::lemma_legal_at_any_depth(
                        v,
                        depth as nat,
                        (depth - 1) as nat,
                        v.move_list().len(),
                    );
                }
            }

            // Get the evaluation for this depth.
            let eval: i16 = Search::alpha_beta(
                depth,
                -INF,
                INF,
                &mut temp_pv,
                board,
                mb,
                params,
                info,
                control_rx,
            );

            // Detect if searching this depth was interrupted.
            interrupted = info.terminate != SearchTerminate::Nothing;

            // If searching this depth was not interrupted...
            if !interrupted {
                assert(-INF < eval < INF);
                assert(eval == v.negamax(depth as nat, 0));

                // Save the best move until now.
                best_move = info.best_move;

                // Create search summary for this depth.
                let elapsed: u128 = info.timer_elapsed();
                let nodes: usize = info.nodes;
                let nps: usize = Search::nodes_per_second(nodes, elapsed);
                info.pv = copy_moves(&temp_pv);
                let summary = SearchSummary {
                    depth,
                    seldepth: info.seldepth,
                    time: elapsed,
                    cp: eval,
                    mate: 0,
                    nodes,
                    nps,
                    pv: copy_moves(&temp_pv),
                };
                let kept = SearchSummary {
                    depth,
                    seldepth: info.seldepth,
                    time: elapsed,
                    cp: eval,
                    mate: 0,
                    nodes,
                    nps,
                    pv: copy_moves(&temp_pv),
                };
                let ghost earlier = info.summaries@;
                info.summaries.push(kept);
                proof {
                    let now = info.summaries@;
                    assert forall|i: int| 0 <= i < now.len() implies summary_of_depth(
                        v,
                        #[trigger] now[i],
                        (i + 1) as nat,
                    ) by {
                        if i < earlier.len() {
                            assert(now[i] == earlier[i]);
                        }
                    }
                    assert forall|i: int, j: int| 0 <= i <= j < now.len() implies (
                    #[trigger] now[i]).nodes <= (#[trigger] now[j]).nodes by {
                        if j < earlier.len() {
                            assert(now[i] == earlier[i]);
                            assert(now[j] == earlier[j]);
                        } else if i < earlier.len() {
                            assert(now[i] == earlier[i]);
                        }
                    }
                    assert forall|i: int| 0 <= i < now.len() implies (#[trigger] now[i]).nodes
                        <= info.nodes by {
                        if i < earlier.len() {
                            assert(now[i] == earlier[i]);
                        }
                    }
                }

                // Create information for the engine
                let report = SearchReport::SearchSummary(summary);
                let information = Information::Search(report);
                if !channel_send(report_tx, information) {
                    info.disconnected = true;
                    info.terminate = SearchTerminate::Quit;
                    interrupted = true;
                }

                // Search one ply deeper.
                depth += 1;
            }
        }

        // Search is done. Report best move and reason to terminate.
        (best_move, info.terminate)
    }

    /// Runs one search from its beginning to its end: searches a position
    /// deeper and deeper, and then reports the move to play with the reason
    /// for which the search ended, after every summary. Returns the state
    /// of the search as it ended.
    pub fn run(
        board: &mut Board,
        mb: &MoveBoard,
        params: &SearchParams,
        control_rx: &Receiver<SearchControl>,
        report_tx: &Sender<Information>,
    ) -> (info: SearchInfo)
        requires
            old(board).wf(),
            mb.wf(),
            params.search_mode == SearchMode::GameTime ==> clocks_ok(params.game_time),
        ensures
            final(board).wf(),
            final(board)@ == old(board)@,
            info.summaries@.len() <= params.depth,
            info.summaries@.len() < MAX_DEPTH,
            summaries_in_order(old(board)@, info.summaries@),
            info.terminate == SearchTerminate::Nothing ==> info.summaries@.len() == (
            if params.depth < MAX_DEPTH {
                params.depth as int
            } else {
                MAX_DEPTH - 1
            }),
            info.best_move == move_to_play(info.summaries@),
            info.allocated_time == allocated(old(board)@, *params, 0),
            info.disconnected ==> info.terminate == SearchTerminate::Quit,
    {
        let mut info = SearchInfo::new();
        let (best_move, terminate) = Search::iterative_deepening(
            board,
            mb,
            params,
            &mut info,
            control_rx,
            report_tx,
        );
        info.best_move = best_move;
        if !info.disconnected {
            let finished = SearchReport::Finished(best_move, terminate);
            if !channel_send(report_tx, Information::Search(finished)) {
                info.disconnected = true;
                info.terminate = SearchTerminate::Quit;
            }
        }
        info
    }
}

} // verus!
