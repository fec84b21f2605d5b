use vstd::prelude::*;

use rand::rngs::ThreadRng;
use rand::Rng;

use crate::board::{
    lemma_move_count_bound, lemma_no_legal_move_full, lemma_turns_alternate, winner_of, Board,
    Cell, MoveResult, HEIGHT, WIDTH,
};

verus! {

/// Number of random games played to judge one column.
pub const NUM_GAMES: usize = 1000;

#[verifier::external_type_specification]
#[verifier::external_body]
pub struct ExThreadRng(rand::rngs::ThreadRng);

/// Relies on rand::thread_rng: a handle to the thread's random generator.
pub assume_specification[ rand::thread_rng ]() -> ThreadRng;

/// Relies on rand::Rng::gen_range: on the range `0..n`, which it panics on
/// only when empty, it returns a value of that range.
#[verifier::external_body]
fn random_below(rng: &mut ThreadRng, n: usize) -> (r: usize)
    requires
        n > 0,
    ensures
        r < n,
{
    rng.gen_range(0..n)
}

/// The statistics of one evaluation: the sum over its games of +1 for a
/// win, -1 for a loss and 0 for a draw, and the number of moves played.
#[derive(Clone, Copy, PartialEq, Eq, Debug, Structural)]
pub struct Tally {
    pub wins: i64,
    pub plies: u64,
}

/// The result ends the game with a winner.
pub open spec fn is_win(result: MoveResult) -> bool {
    result == MoveResult::WinX || result == MoveResult::WinO
}

/// The result ends the game.
pub open spec fn is_final(result: MoveResult) -> bool {
    is_win(result) || result == MoveResult::Draw
}

/// What a result is worth to `cell`: 1 for its win, -1 for any other win,
/// 0 otherwise.
pub open spec fn result_value(result: MoveResult, cell: Cell) -> int {
    if is_win(result) {
        if winner_of(result) == cell {
            1
        } else {
            -1
        }
    } else {
        0
    }
}

/// What a result is worth to `cell`.
pub fn score_result(result: MoveResult, cell: Cell) -> (r: i64)
    ensures
        r == result_value(result, cell),
{
    if result == MoveResult::WinX || result == MoveResult::WinO {
        if Cell::from(result) == cell {
            1
        } else {
            -1
        }
    } else {
        0
    }
}

/// The columns where a piece can be dropped, in increasing order.
pub fn legal_columns(board: &Board) -> (r: Vec<usize>)
    requires
        board.wf(),
    ensures
        forall|c: usize| #[trigger] r@.contains(c) == board.is_legal(c as int),
        forall|i: int, j: int| 0 <= i < j < r@.len() ==> r@[i] < r@[j],
{
    let mut valid_moves: Vec<usize> = Vec::new();
    let mut x: usize = 0;
    while x < WIDTH
        invariant
            board.wf(),
            x <= WIDTH,
            forall|c: usize| #[trigger] valid_moves@.contains(c) == (c < x && board.is_legal(c as int)),
            forall|i: int, j: int| 0 <= i < j < valid_moves@.len() ==> valid_moves@[i] < valid_moves@[j],
            forall|i: int| 0 <= i < valid_moves@.len() ==> valid_moves@[i] < x,
        decreases WIDTH - x,
    {
        let ghost before = valid_moves@;
        let legal = board.is_valid_move(x);
        if legal {
            valid_moves.push(x);
        }
        proof {
            assert forall|c: usize| #[trigger] valid_moves@.contains(c) == (c < x + 1
                && board.is_legal(c as int)) by {
                if legal {
                    assert(valid_moves@ == before.push(x));
                    assert(valid_moves@[before.len() as int] == x);
                    if before.contains(c) {
                        let k = choose|k: int| 0 <= k < before.len() && before[k] == c;
                        assert(valid_moves@[k] == c);
                    }
                    if valid_moves@.contains(c) && c != x {
                        let k = choose|k: int| 0 <= k < valid_moves@.len() && valid_moves@[k] == c;
                        assert(before[k] == c);
                    }
                }
            }
        }
        x = x + 1;
    }
    valid_moves
}

/// Plays random legal moves on `board`, drawn with `rng`, until a move wins
/// or fills the board. Returns the last result and the number of moves
/// made.
fn playout(board: &mut Board, rng: &mut ThreadRng) -> (r: (MoveResult, u64))
    requires
        old(board).wf(),
    ensures
        final(board).wf(),
        r.1 == final(board).move_count() - old(board).move_count(),
        is_final(r.0) || (r.0 == MoveResult::Ongoing && final(board).full()),
        r.0 == MoveResult::Draw ==> final(board).full(),
        is_win(r.0) ==> winner_of(r.0) == final(board).last_mover(),
{
    let ghost start = *board;
    proof {
        lemma_move_count_bound(start);
    }
    let mut plies: u64 = 0;
    loop
        invariant
            board.wf(),
            start.wf(),
            start == *old(board),
            0 <= start.move_count() <= WIDTH * HEIGHT,
            plies == board.move_count() - start.move_count(),
            board.move_count() <= WIDTH * HEIGHT,
        decreases WIDTH * HEIGHT - board.move_count(),
    {
        let valid_moves = legal_columns(board);
        if valid_moves.len() == 0 {
            proof {
                assert forall|c: int| 0 <= c < WIDTH implies !#[trigger] board.is_legal(c) by {
                    assert(!valid_moves@.contains(c as usize));
                }
                lemma_no_legal_move_full(*board);
            }
            return (MoveResult::Ongoing, plies);
        }
        let index = random_below(rng, valid_moves.len());
        let x = valid_moves[index];
        assert(valid_moves@.contains(x));
        let ghost prev = *board;
        let result = board.make_move(x);
        proof {
            lemma_turns_alternate(prev, x as int);
            lemma_move_count_bound(*board);
        }
        plies = plies + 1;
        if result == MoveResult::WinX || result == MoveResult::WinO || result == MoveResult::Draw {
            return (result, plies);
        }
    }
}

/// Judges dropping a piece into `col` for `cell`: `NUM_GAMES` times, makes
/// that move on a copy of `board` and plays the game out at random, then
/// sums what each game's end is worth to `cell` and counts the moves made,
/// the judged one included. `None` where the move is illegal.
pub fn monte_carlo(board: &Board, cell: Cell, col: usize) -> (r: Option<Tally>)
    requires
        board.wf(),
    ensures
        r.is_none() == !board.is_legal(col as int),
        r matches Some(t) ==> {
            &&& -(NUM_GAMES as int) <= t.wins <= NUM_GAMES
            &&& NUM_GAMES <= t.plies <= NUM_GAMES * (WIDTH * HEIGHT - board.move_count())
            &&& is_final(board.outcome(col as int)) ==> t.plies == NUM_GAMES && t.wins
                == NUM_GAMES * result_value(board.outcome(col as int), cell)
        },
{
    if !board.is_valid_move(col) {
        return None;
    }
    let ghost m = board.move_count();
    let ghost rem = WIDTH * HEIGHT - m;
    let ghost o = board.outcome(col as int);
    let ghost v = result_value(o, cell);
    proof {
        lemma_move_count_bound(*board);
        lemma_turns_alternate(*board, col as int);
        board.lemma_play(col as int);
        lemma_move_count_bound(board.play(col as int));
    }
    let mut rng = rand::thread_rng();
    let mut wins: i64 = 0;
    let mut moves: u64 = 0;
    let mut i: usize = 0;
    while i < NUM_GAMES
        invariant
            board.wf(),
            board.is_legal(col as int),
            m == board.move_count(),
            rem == WIDTH * HEIGHT - m,
            1 <= rem <= WIDTH * HEIGHT,
            o == board.outcome(col as int),
            v == result_value(o, cell),
            i <= NUM_GAMES,
            -(i as int) <= wins <= i,
            i <= moves <= i * rem,
            is_final(o) ==> moves == i && wins == i * v,
        decreases NUM_GAMES - i,
    {
        let mut sim_board = *board;
        let first = sim_board.make_move(col);
        proof {
            lemma_move_count_bound(sim_board);
        }
        let mut trial_moves: u64 = 1;
        let value: i64;
        if first == MoveResult::WinX || first == MoveResult::WinO || first == MoveResult::Draw {
            value = score_result(first, cell);
        } else {
            let (result, n) = playout(&mut sim_board, &mut rng);
            proof {
                lemma_move_count_bound(sim_board);
            }
            trial_moves = trial_moves + n;
            value = score_result(result, cell);
        }
        proof {
            assert(trial_moves <= rem);
            assert(i * rem <= NUM_GAMES * (WIDTH * HEIGHT)) by (nonlinear_arith)
                requires
                    i <= NUM_GAMES,
                    rem <= WIDTH * HEIGHT,
            ;
            assert((i + 1) * rem == i * rem + rem) by (nonlinear_arith);
            assert((i + 1) * v == i * v + v) by (nonlinear_arith);
        }
        wins = wins + value;
        moves = moves + trial_moves;
        i = i + 1;
    }
    Some(Tally { wins, plies: moves })
}

} // verus!
