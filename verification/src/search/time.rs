//! How much time a search takes, and when it has taken it.

use crate::board::Board;
use crate::defs::WHITE;
use crate::search::defs::{GameTime, SearchInfo, SearchParams};
use crate::search::Search;
use vstd::arithmetic::div_mod::{lemma_fundamental_div_mod, lemma_fundamental_div_mod_converse};
use vstd::prelude::*;

verus! {

/// Milliseconds kept back from each slice for what happens between the
/// search and the clock.
pub const OVERHEAD: i128 = 100;

/// The number of moves that a game, and each later phase of it, is taken
/// to last.
pub const GAME_LENGTH: usize = 30;

/// The least number of moves that is assumed to remain.
pub const MOVES_BUFFER: usize = 5;

/// With this much time or less a search does not overshoot.
pub const CRITICAL_TIME: u128 = 1_000;

/// With more time than this a search may take twice its share.
pub const OK_TIME: u128 = CRITICAL_TIME * 5;

/// The time after which a search with `allocated` milliseconds is out of
/// time: twice as much with plenty of time, one and a half times as much,
/// rounded, with little, and no more than allocated in critical time.
pub open spec fn time_limit(allocated: int) -> int {
    if allocated > OK_TIME {
        2 * allocated
    } else if allocated > CRITICAL_TIME {
        (3 * allocated + 1) / 2
    } else {
        allocated
    }
}

/// `clock` divided by `moves`, rounded to the nearest whole number, a half
/// up.
pub open spec fn rounded_share(clock: int, moves: int) -> int {
    (2 * clock + moves) / (2 * moves)
}

/// The time for one move: the share of the clock for each of the moves to
/// go, if the clock is above critical time or nothing is added for a move,
/// and what is added for a move, less the overhead.
pub open spec fn time_slice(clock: int, increment: int, moves_to_go: int) -> int {
    (if clock > CRITICAL_TIME || increment == 0 {
        rounded_share(clock, moves_to_go)
    } else {
        0
    }) + increment - OVERHEAD
}

/// The moves that are taken to remain when nobody says how many: a game is
/// taken to last 30 moves; after each 30 moves a new phase begins, which is
/// taken to last 30 divided by its number; what is left of the phase
/// remains, but never less than 5 moves.
pub open spec fn estimated_moves_to_go(white: bool, ply: int) -> int {
    let moves_made = if white {
        ply / 2
    } else if ply == 0 {
        0
    } else {
        (ply - 1) / 2
    };
    let phase = moves_made / (GAME_LENGTH as int) + 1;
    let length = (GAME_LENGTH as int) / phase;
    if length == 0 || length - moves_made % length < MOVES_BUFFER {
        MOVES_BUFFER as int
    } else {
        length - moves_made % length
    }
}

/// The clocks can be divided: a given number of moves to go is not zero,
/// and each clock with its increment fits the result.
pub open spec fn clocks_ok(game_time: GameTime) -> bool {
    &&& game_time.moves_to_go != Some(0usize)
    &&& game_time.wtime + game_time.winc <= i128::MAX
    &&& game_time.btime + game_time.binc <= i128::MAX
}

/// A share is what remains after whole shares have been taken, rounded.
proof fn lemma_rounded_share(clock: int, moves: int)
    requires
        0 <= clock,
        0 < moves,
    ensures
        rounded_share(clock, moves) == clock / moves + (if 2 * (clock % moves) >= moves {
            1int
        } else {
            0int
        }),
        0 <= rounded_share(clock, moves) <= clock,
        rounded_share(clock, moves) * (2 * moves) <= 2 * clock + moves,
        2 * clock + moves < (rounded_share(clock, moves) + 1) * (2 * moves),
{
    let q = clock / moves;
    let r = clock % moves;
    lemma_fundamental_div_mod(clock, moves);
    assert(0 <= r < moves);
    assert(0 <= q <= clock) by (nonlinear_arith)
        requires
            clock == moves * q + r,
            0 <= r < moves,
            0 < moves,
            0 <= clock,
    ;
    let n = 2 * clock + moves;
    let d = 2 * moves;
    if 2 * r >= moves {
        assert(n == (q + 1) * d + (2 * r - moves)) by (nonlinear_arith)
            requires
                n == 2 * clock + moves,
                d == 2 * moves,
                clock == moves * q + r,
        ;
        lemma_fundamental_div_mod_converse(n, d, q + 1, 2 * r - moves);
    } else {
        assert(n == q * d + (2 * r + moves)) by (nonlinear_arith)
            requires
                n == 2 * clock + moves,
                d == 2 * moves,
                clock == moves * q + r,
        ;
        lemma_fundamental_div_mod_converse(n, d, q, 2 * r + moves);
    }
    lemma_fundamental_div_mod(n, d);
    let s = rounded_share(clock, moves);
    if 2 * r >= moves {
        assert(q + 1 <= clock) by (nonlinear_arith)
            requires
                clock == moves * q + r,
                2 * r >= moves,
                0 <= r < moves,
                0 <= q,
        ;
    }
    assert(s * d <= n && n < (s + 1) * d) by (nonlinear_arith)
        requires
            n == d * s + n % d,
            0 <= n % d < d,
    ;
}

/// Rounding a quotient to the nearest whole number, a half up, is adding
/// one to the whole part when twice the rest is no less than the divisor.
pub proof fn lemma_rounded(n: int, d: int)
    requires
        0 <= n,
        0 < d,
    ensures
        (2 * n + d) / (2 * d) == n / d + (if n % d >= d - n % d {
            1int
        } else {
            0int
        }),
{
    lemma_rounded_share(n, d);
}

/// The more moves there are to go, the smaller the share of each.
pub proof fn lemma_share_monotone(clock: int, fewer: int, more: int)
    requires
        0 <= clock,
        0 < fewer <= more,
    ensures
        rounded_share(clock, more) <= rounded_share(clock, fewer),
{
    lemma_rounded_share(clock, fewer);
    lemma_rounded_share(clock, more);
    let a = rounded_share(clock, fewer);
    let b = rounded_share(clock, more);
    if b > a {
        // b * 2 * more <= 2 * clock + more, and 2 * clock + fewer < (a + 1) * 2 * fewer
        assert(false) by (nonlinear_arith)
            requires
                b >= a + 1,
                a >= 0,
                0 < fewer <= more,
                b * (2 * more) <= 2 * clock + more,
                2 * clock + fewer < (a + 1) * (2 * fewer),
        ;
    }
}

/// The slice of time for a move does not grow when the moves to go grow,
/// the clock and the increment staying what they are.
pub proof fn lemma_time_slice_monotone(clock: int, increment: int, fewer: int, more: int)
    requires
        0 <= clock,
        0 < fewer <= more,
    ensures
        time_slice(clock, increment, more) <= time_slice(clock, increment, fewer),
{
    lemma_share_monotone(clock, fewer, more);
}

/// Whether the clocks can be divided.
pub fn clocks_fit(game_time: &GameTime) -> (ok: bool)
    ensures
        ok == clocks_ok(*game_time),
{
    let moves_fit: bool = match game_time.moves_to_go {
        Some(moves) => moves != 0,
        None => true,
    };
    let most: u128 = i128::MAX as u128;
    moves_fit && game_time.wtime <= most && game_time.winc <= most - game_time.wtime
        && game_time.btime <= most && game_time.binc <= most - game_time.btime
}

/// A search that was given `allocated` milliseconds and has run for
/// `elapsed` is out of time: it has run for its limit or longer.
pub open spec fn is_up(elapsed: u128, allocated: u128) -> bool {
    elapsed >= time_limit(allocated as int)
}

/// Whether a search that was given `allocated` milliseconds and has run
/// for `elapsed` is out of time.
pub fn time_is_up(elapsed: u128, allocated: u128) -> (out: bool)
    ensures
        out == (elapsed >= time_limit(allocated as int)),
        out == is_up(elapsed, allocated),
{
    if allocated > OK_TIME {
        elapsed / 2 >= allocated
    } else if allocated > CRITICAL_TIME {
        elapsed >= (3 * allocated + 1) / 2
    } else {
        elapsed >= allocated
    }
}

/// The slice of time for one move, from the clock of the side to move,
/// what is added to it for each move, and the moves to go.
pub fn slice_of(clock: u128, increment: u128, moves_to_go: usize) -> (slice: i128)
    requires
        moves_to_go > 0,
        clock + increment <= i128::MAX,
    ensures
        slice == time_slice(clock as int, increment as int, moves_to_go as int),
{
    let base_time: u128 = if clock > CRITICAL_TIME || increment == 0 {
        let whole: u128 = clock / (moves_to_go as u128);
        let rest: u128 = clock % (moves_to_go as u128);
        proof {
            lemma_rounded_share(clock as int, moves_to_go as int);
        }
        if rest >= (moves_to_go as u128) - rest {
            whole + 1
        } else {
            whole
        }
    } else {
        0
    };
    proof {
        lemma_rounded_share(clock as int, moves_to_go as int);
    }
    (base_time + increment) as i128 - OVERHEAD
}

impl Search {
    /// Whether the search has used up its time. The clock says how long the
    /// search has run; the answer is whether a search that has run for so
    /// long, with the time that this one was given, is out of time. So a
    /// search that was given no time is out of time whatever the clock says.
    pub fn out_of_time(info: &SearchInfo) -> (out: bool)
        ensures
            exists|elapsed: u128| out == #[trigger] is_up(elapsed, info.allocated_time),
    {
        let elapsed: u128 = info.timer_elapsed();
        let out: bool = time_is_up(elapsed, info.allocated_time);
        assert(out == is_up(elapsed, info.allocated_time));
        out
    }

    /// The moves to go: as many as the clocks say, or else an estimate from
    /// how many moves have been made.
    pub fn moves_to_go(board: &Board, params: &SearchParams) -> (moves: usize)
        requires
            params.game_time.moves_to_go != Some(0usize),
        ensures
            moves > 0,
            moves == (match params.game_time.moves_to_go {
                Some(x) => x as int,
                None => estimated_moves_to_go(
                    board@.us() == WHITE,
                    board@.history.len() as int,
                ),
            }),
    {
        if let Some(x) = params.game_time.moves_to_go {
            x
        } else {
            let white: bool = board.us() == WHITE;
            let ply: usize = board.history.len();
            let moves_made: usize = if white {
                ply / 2
            } else if ply == 0 {
                0
            } else {
                (ply - 1) / 2
            };
            let phase: usize = (moves_made / GAME_LENGTH) + 1;
            let length: usize = GAME_LENGTH / phase;
            if length == 0 {
                MOVES_BUFFER
            } else {
                let left: usize = length - (moves_made % length);
                if left < MOVES_BUFFER {
                    MOVES_BUFFER
                } else {
                    left
                }
            }
        }
    }

    /// The time to take for the move that is searched: the slice of the
    /// clock of the side to move.
    pub fn allocate_time_slice(board: &Board, params: &SearchParams) -> (slice: i128)
        requires
            clocks_ok(params.game_time),
        ensures
            slice == ({
                let white = board@.us() == WHITE;
                let moves = match params.game_time.moves_to_go {
                    Some(x) => x as int,
                    None => estimated_moves_to_go(white, board@.history.len() as int),
                };
                if white {
                    time_slice(params.game_time.wtime as int, params.game_time.winc as int, moves)
                } else {
                    time_slice(params.game_time.btime as int, params.game_time.binc as int, moves)
                }
            }),
    {
        let gt = &params.game_time;
        let mtg: usize = Search::moves_to_go(board, params);
        let white: bool = board.us() == WHITE;
        let clock: u128 = if white {
            gt.wtime
        } else {
            gt.btime
        };
        let increment: u128 = if white {
            gt.winc
        } else {
            gt.binc
        };
        slice_of(clock, increment, mtg)
    }
}

} // verus!
