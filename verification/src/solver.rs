//! Root drivers: order the root candidates, search the first with a full
//! window, probe the rest with null windows and re-search only the ones
//! that beat the best score, and report the chosen move with its proven
//! or estimated score and the node counts.

use crate::bit::lemma_popcount_pos;
use crate::bit::popcount;
use crate::eval_search::eval_value_of;
use crate::eval_search::lemma_eval_best_reply_ge;
use crate::eval_search::lemma_eval_best_reply_le;
use crate::eval_search::lemma_eval_value_bounds;
use crate::eval_search::SWITCH_NEGAALPHA_SEARCH_LEVEL;
use crate::perfect_search::best_reply_value;
use crate::perfect_search::lemma_best_reply_ge;
use crate::perfect_search::lemma_best_reply_le;
use crate::perfect_search::lemma_perfect_value_bounds;
use crate::perfect_search::perfect_value;
use crate::perfect_search::SWITCH_EMPTIES_NEGA_ALPHA;
use crate::perfect_search::SWITCH_EMPTIES_SIMPLE_NWS;
use crate::search::empties_spec;
use crate::board::legal_spec;
use crate::board::Board;
use crate::eval_search::nws_eval;
use crate::eval_search::pvs_eval;
use crate::perfect_search::nws_perfect;
use crate::perfect_search::pvs_perfect;
use crate::search::child_of;
use crate::search::get_put_boards;
use crate::search::move_ordering_eval;
use crate::search::search_preserved;
use crate::search::Search;
use crate::search::SCORE_INF;
use vstd::prelude::*;

verus! {

/// What a root search found: the chosen move as a single-bit mask, its
/// score from the side to move, and how many nodes were visited.
pub struct SolverResult {
    pub best_move: u64,
    pub eval: i32,
    pub node_count: u64,
    pub leaf_node_count: u64,
}

/// Failure of a root search.
pub enum SolverErr {
    /// The root position offers the side to move no legal move.
    NoMove,
}

/// A solver's verdict is sound in shape: the move is one legal single-bit
/// mask and the score is in range.
pub open spec fn solver_result_ok(b: Board, res: SolverResult) -> bool {
    res.best_move != 0 && (res.best_move & legal_spec(b.player(), b.opponent())) != 0 && popcount(
        res.best_move,
    ) == 1 && -SCORE_INF <= res.eval && res.eval <= SCORE_INF
}

/// Solves the position exactly: a full-window principal-variation search
/// on the first ordered candidate, null-window probes with conditional
/// re-search on the rest. Warm-up searches seed the transposition table
/// first. Fails only when the side to move has no legal move.
pub fn perfect_solver(board: &Board, selectivity_lv: i32, search: &mut Search) -> (r: Result<
    SolverResult,
    SolverErr,
>)
    requires
        board.wf(),
        4 <= popcount(board.occupied()),
        old(search).wf(),
        old(search).selectivity_lv == selectivity_lv,
    ensures
        search_preserved(*old(search), *final(search)),
        r is Err <==> legal_spec(board.player(), board.opponent()) == 0,
        r matches Ok(res) ==> solver_result_ok(*board, res),
        old(search).selectivity_lv == 0 && empties_spec(*board) <= SWITCH_EMPTIES_NEGA_ALPHA ==> (
        r matches Ok(res) ==> res.eval == perfect_value(*board) && res.eval == -perfect_value(
            board.apply_move_spec(res.best_move),
        )),
{
    let legal_moves = board.put_able();
    if legal_moves == 0 {
        return Err(SolverErr::NoMove);
    }
    proof {
        crate::search::lemma_room_left(board.occupied(), legal_moves);
        crate::bit::lemma_popcount_le_64(board.occupied());
    }

    if board.empties_count() > 8 {
        pvs_eval(board, 0 - SCORE_INF, SCORE_INF, 6, search);
    }
    if board.empties_count() > 10 {
        pvs_eval(board, 0 - SCORE_INF, SCORE_INF, 8, search);
    }
    if board.empties_count() > 12 {
        pvs_eval(board, 0 - SCORE_INF, SCORE_INF, 10, search);
    }
    if board.empties_count() > 20 {
        let main_selectivity_lv = search.selectivity_lv;
        search.selectivity_lv = 5;
        pvs_eval(board, 0 - SCORE_INF, SCORE_INF, 16, search);
        search.selectivity_lv = main_selectivity_lv;
    }
    if search.selectivity_lv < 3 {
        let main_selectivity_lv = search.selectivity_lv;
        search.selectivity_lv = 5;
        pvs_perfect(board, 0 - SCORE_INF, SCORE_INF, search);
        search.selectivity_lv = main_selectivity_lv;
    }

    let put_boards = if board.empties_count() < 10 {
        get_put_boards(board, legal_moves)
    } else {
        move_ordering_eval(board, legal_moves, 8, search)
    };
    proof {
        lemma_popcount_pos(legal_moves);
        assert(child_of(*board, legal_moves, put_boards@[0]));
    }

    let mut alpha: i32 = 0 - SCORE_INF;
    let beta: i32 = SCORE_INF;

    let first_child = put_boards[0];
    alpha = 0 - pvs_perfect(&first_child.board, 0 - beta, 0 - alpha, search);
    let mut put_place_best_score = first_child.put_place;
    proof {
        if old(search).selectivity_lv == 0 && empties_spec(*board) <= SWITCH_EMPTIES_NEGA_ALPHA {
            crate::search::lemma_child_move(*board, legal_moves, put_boards@[0]);
            lemma_perfect_value_bounds(first_child.board);
            assert(alpha as int == -perfect_value(
                board.apply_move_spec(1u64 << put_place_best_score),
            ));
        }
    }

    let mut i: usize = 1;
    while i < put_boards.len()
        invariant
            board.wf(),
            4 <= popcount(board.occupied()),
            legal_spec(board.player(), board.opponent()) != 0,
            legal_moves == legal_spec(board.player(), board.opponent()),
            -SCORE_INF <= alpha,
            alpha <= SCORE_INF,
            beta == SCORE_INF,
            put_place_best_score < 64,
            ((1u64 << put_place_best_score) & legal_moves) != 0,
            search.wf(),
            search_preserved(*old(search), *search),
            forall|j: int|
                0 <= j < put_boards@.len() ==> child_of(*board, legal_moves, #[trigger] put_boards@[j]),
            forall|j: u64|
                j < 64 && #[trigger] crate::bit::bit64(legal_moves, j) ==> exists|k: int|
                    0 <= k < put_boards@.len() && (#[trigger] put_boards@[k]).put_place == j,
            old(search).selectivity_lv == 0 && empties_spec(*board) <= SWITCH_EMPTIES_NEGA_ALPHA
                ==> (-64 <= alpha && alpha <= 64 && alpha as int == -perfect_value(
                board.apply_move_spec(1u64 << put_place_best_score),
            ) && (forall|j: int|
                0 <= j < i ==> -perfect_value((#[trigger] put_boards@[j]).board) <= alpha as int)),
        decreases put_boards@.len() - i,
    {
        proof {
            assert(child_of(*board, legal_moves, put_boards@[i as int]));
            if old(search).selectivity_lv == 0 && empties_spec(*board)
                <= SWITCH_EMPTIES_NEGA_ALPHA {
                crate::search::lemma_child_move(*board, legal_moves, put_boards@[i as int]);
                lemma_perfect_value_bounds(put_boards@[i as int].board);
            }
        }
        let put = put_boards[i];
        let mut score = 0 - nws_perfect(&put.board, 0 - alpha - 1, search);
        if score > alpha {
            score = 0 - pvs_perfect(&put.board, 0 - beta, 0 - alpha, search);
            if score > alpha {
                alpha = score;
                put_place_best_score = put.put_place;
            }
        }
        i += 1;
    }

    proof {
        crate::bit::lemma_shift_single(put_place_best_score as u64);
        crate::bit::lemma_popcount_single_bit(1u64 << put_place_best_score);
        if old(search).selectivity_lv == 0 && empties_spec(*board) <= SWITCH_EMPTIES_NEGA_ALPHA {
            let mb = 1u64 << put_place_best_score;
            crate::bit::lemma_single_bit_member(mb, legal_moves);
            assert forall|j: u64| j < 64 && #[trigger] crate::bit::bit64(legal_moves, j) implies
                -perfect_value(board.apply_move_spec(1u64 << j)) <= alpha as int by {
                let k = choose|k: int|
                    0 <= k < put_boards@.len() && (#[trigger] put_boards@[k]).put_place == j;
                assert(child_of(*board, legal_moves, put_boards@[k]));
                assert((1u64 << j) == (1u64 << put_boards@[k].put_place));
                assert(-perfect_value(put_boards@[k].board) <= alpha as int);
            }
            crate::bit::lemma_and_idem(legal_moves);
            lemma_best_reply_le(*board, legal_moves, alpha as int);
            lemma_best_reply_ge(*board, legal_moves, mb);
            assert(perfect_value(*board) == best_reply_value(*board, legal_moves));
        }
    }
    Ok(
        SolverResult {
            best_move: 1u64 << put_place_best_score,
            eval: alpha,
            node_count: search.perfect_search_node_count,
            leaf_node_count: search.perfect_search_leaf_node_count,
        },
    )
}

/// Decides win, draw or loss with a fully exact search: the selectivity
/// level is pinned to zero for the duration, a null window at zero finds
/// a winning move, and one at minus one tells draws from losses among
/// the rest. Two probes that contradict each other settle on the
/// conservative draw verdict. The score is 1, 0 or -1.
#[verifier::rlimit(100)]
pub fn winning_solver(board: &Board, search: &mut Search) -> (r: Result<SolverResult, SolverErr>)
    requires
        board.wf(),
        4 <= popcount(board.occupied()),
        old(search).wf(),
    ensures
        search_preserved(*old(search), *final(search)),
        r is Err <==> legal_spec(board.player(), board.opponent()) == 0,
        r matches Ok(res) ==> solver_result_ok(*board, res) && -1 <= res.eval && res.eval <= 1,
        empties_spec(*board) <= SWITCH_EMPTIES_SIMPLE_NWS ==> (r matches Ok(res) ==> ((res.eval
            == 1 <==> perfect_value(*board) >= 1) && (res.eval == 0 <==> perfect_value(*board)
            == 0) && (res.eval == -1 <==> perfect_value(*board) <= -1) && (res.eval == 1
            ==> perfect_value(board.apply_move_spec(res.best_move)) <= -1) && (res.eval == 0
            ==> perfect_value(board.apply_move_spec(res.best_move)) == 0))),
{
    let legal_moves = board.put_able();
    if legal_moves == 0 {
        return Err(SolverErr::NoMove);
    }
    proof {
        crate::search::lemma_room_left(board.occupied(), legal_moves);
        crate::bit::lemma_popcount_le_64(board.occupied());
        lemma_popcount_pos(legal_moves);
    }

    let main_selectivity_lv = search.selectivity_lv;
    search.selectivity_lv = 0;

    let put_boards = if board.empties_count() < 10 {
        get_put_boards(board, legal_moves)
    } else {
        move_ordering_eval(board, legal_moves, 8, search)
    };
    proof {
        assert(child_of(*board, legal_moves, put_boards@[0]));
    }

    let mut put_place_best_score: u8 = put_boards[0].put_place;
    let mut eval: i32 = -1;
    let beta: i32 = 1;
    let mut draw_or_lose_board_index: Vec<usize> = Vec::new();

    let mut i: usize = 0;
    while i < put_boards.len()
        invariant
            board.wf(),
            4 <= popcount(board.occupied()),
            legal_spec(board.player(), board.opponent()) != 0,
            legal_moves == legal_spec(board.player(), board.opponent()),
            -1 <= eval,
            eval <= 1,
            beta == 1,
            put_place_best_score < 64,
            ((1u64 << put_place_best_score) & legal_moves) != 0,
            forall|k: int|
                0 <= k < draw_or_lose_board_index@.len()
                    ==> #[trigger] draw_or_lose_board_index@[k] < put_boards@.len(),
            search.wf(),
            search.selectivity_lv == 0,
            search.origin_board == old(search).origin_board,
            search.eval_func.eval == old(search).eval_func.eval,
            search.eval_func.patterns == old(search).eval_func.patterns,
            forall|j: int|
                0 <= j < put_boards@.len() ==> child_of(*board, legal_moves, #[trigger] put_boards@[j]),
            forall|j: u64|
                j < 64 && #[trigger] crate::bit::bit64(legal_moves, j) ==> exists|k: int|
                    0 <= k < put_boards@.len() && (#[trigger] put_boards@[k]).put_place == j,
            empties_spec(*board) <= SWITCH_EMPTIES_SIMPLE_NWS ==> ((eval == 1
                ==> perfect_value(*board) >= 1 && perfect_value(
                board.apply_move_spec(1u64 << put_place_best_score),
            ) <= -1) && (forall|j: int|
                0 <= j < i ==> -perfect_value((#[trigger] put_boards@[j]).board) <= 0) && (forall|
                j: int,
            |
                0 <= j < i && -perfect_value((#[trigger] put_boards@[j]).board) == 0 ==> exists|
                    k: int,
                |
                    0 <= k < draw_or_lose_board_index@.len() && draw_or_lose_board_index@[k] as int
                        == j) && (forall|k: int|
                0 <= k < draw_or_lose_board_index@.len() ==> -perfect_value(
                    put_boards@[#[trigger] draw_or_lose_board_index@[k] as int].board,
                ) <= 0) && (eval == 0 ==> draw_or_lose_board_index@.len() > 0) && (eval == -1
                ==> draw_or_lose_board_index@.len() == 0)),
        ensures
            empties_spec(*board) <= SWITCH_EMPTIES_SIMPLE_NWS ==> (eval == 1 || i
                >= put_boards@.len()),
        decreases put_boards@.len() - i,
    {
        proof {
            assert(child_of(*board, legal_moves, put_boards@[i as int]));
            if empties_spec(*board) <= SWITCH_EMPTIES_SIMPLE_NWS {
                crate::search::lemma_child_move(*board, legal_moves, put_boards@[i as int]);
                lemma_perfect_value_bounds(put_boards@[i as int].board);
            }
        }
        let put = put_boards[i];
        let score = 0 - nws_perfect(&put.board, 0 - beta, search);
        if score > 0 {
            if eval <= 0 {
                put_place_best_score = put.put_place;
                eval = 1;
                proof {
                    if empties_spec(*board) <= SWITCH_EMPTIES_SIMPLE_NWS {
                        crate::bit::lemma_and_idem(legal_moves);
                        lemma_best_reply_ge(
                            *board,
                            legal_moves,
                            1u64 << put_boards@[i as int].put_place,
                        );
                        assert(perfect_value(*board) == best_reply_value(*board, legal_moves));
                    }
                }
            }
            break ;
        } else if score == 0 {
            let ghost old_dlb = draw_or_lose_board_index@;
            draw_or_lose_board_index.push(i);
            proof {
                if empties_spec(*board) <= SWITCH_EMPTIES_SIMPLE_NWS {
                    assert(-perfect_value(put_boards@[i as int].board) <= 0);
                    assert forall|j: int|
                        0 <= j < i + 1 && -perfect_value((#[trigger] put_boards@[j]).board)
                            == 0 implies exists|k: int|
                        0 <= k < draw_or_lose_board_index@.len() && draw_or_lose_board_index@[k] as int
                            == j by {
                        if j < i {
                            let k0 = choose|k0: int|
                                0 <= k0 < old_dlb.len() && old_dlb[k0] as int == j;
                            assert(draw_or_lose_board_index@[k0] as int == j);
                        } else {
                            assert(draw_or_lose_board_index@[old_dlb.len() as int] as int == i);
                        }
                    }
                    assert forall|k: int|
                        0 <= k < draw_or_lose_board_index@.len() implies -perfect_value(
                        put_boards@[#[trigger] draw_or_lose_board_index@[k] as int].board,
                    ) <= 0 by {
                        if k < old_dlb.len() {
                            assert(draw_or_lose_board_index@[k] == old_dlb[k]);
                        } else {
                            assert(draw_or_lose_board_index@[k] as int == i);
                        }
                    }
                }
            }
            if eval < 0 {
                put_place_best_score = put.put_place;
                eval = 0;
            }
        }
        i += 1;
    }

    if eval == 0 {
        let beta: i32 = 0;
        let mut k: usize = 0;
        while k < draw_or_lose_board_index.len()
            invariant_except_break
                empties_spec(*board) <= SWITCH_EMPTIES_SIMPLE_NWS ==> (k > 0 ==> eval == -1),
            invariant
                board.wf(),
                4 <= popcount(board.occupied()),
                legal_spec(board.player(), board.opponent()) != 0,
                legal_moves == legal_spec(board.player(), board.opponent()),
                -1 <= eval,
                eval <= 1,
                beta == 0,
                put_place_best_score < 64,
                ((1u64 << put_place_best_score) & legal_moves) != 0,
                forall|j: int|
                    0 <= j < draw_or_lose_board_index@.len()
                        ==> #[trigger] draw_or_lose_board_index@[j] < put_boards@.len(),
                search.wf(),
                search.selectivity_lv == 0,
                search.origin_board == old(search).origin_board,
                search.eval_func.eval == old(search).eval_func.eval,
                search.eval_func.patterns == old(search).eval_func.patterns,
                forall|j: int|
                    0 <= j < put_boards@.len() ==> child_of(*board, legal_moves, #[trigger] put_boards@[j]),
                empties_spec(*board) <= SWITCH_EMPTIES_SIMPLE_NWS ==> (eval == 0 || eval == -1),
                empties_spec(*board) <= SWITCH_EMPTIES_SIMPLE_NWS
                    ==> draw_or_lose_board_index@.len() > 0,
                empties_spec(*board) <= SWITCH_EMPTIES_SIMPLE_NWS ==> (forall|m: int|
                    0 <= m < draw_or_lose_board_index@.len() ==> -perfect_value(
                        put_boards@[#[trigger] draw_or_lose_board_index@[m] as int].board,
                    ) <= 0),
                empties_spec(*board) <= SWITCH_EMPTIES_SIMPLE_NWS ==> (forall|m: int|
                    0 <= m < k ==> -perfect_value(
                        put_boards@[#[trigger] draw_or_lose_board_index@[m] as int].board,
                    ) <= -1),
            ensures
                empties_spec(*board) <= SWITCH_EMPTIES_SIMPLE_NWS ==> ((eval == 0
                    && perfect_value(board.apply_move_spec(1u64 << put_place_best_score)) == 0)
                    || (eval == -1 && (forall|m: int|
                    0 <= m < draw_or_lose_board_index@.len() ==> -perfect_value(
                        put_boards@[#[trigger] draw_or_lose_board_index@[m] as int].board,
                    ) <= -1))),
            decreases draw_or_lose_board_index@.len() - k,
        {
            let idx = draw_or_lose_board_index[k];
            proof {
                assert(child_of(*board, legal_moves, put_boards@[idx as int]));
                if empties_spec(*board) <= SWITCH_EMPTIES_SIMPLE_NWS {
                    crate::search::lemma_child_move(*board, legal_moves, put_boards@[idx as int]);
                    lemma_perfect_value_bounds(put_boards@[idx as int].board);
                }
            }
            let put = put_boards[idx];
            let score = 0 - nws_perfect(&put.board, 0 - beta, search);
            if score == 0 {
                if eval < 0 {
                    eval = 0;
                }
                put_place_best_score = put.put_place;
                break ;
            } else if score < 0 {
                eval = -1;
            } else {
                put_place_best_score = put.put_place;
                eval = 0;
                break ;
            }
            k += 1;
        }
    }
    if eval == -1 {
        put_place_best_score = put_boards[0].put_place;
        proof {
            assert(child_of(*board, legal_moves, put_boards@[0]));
        }
    }
    search.selectivity_lv = main_selectivity_lv;

    proof {
        crate::bit::lemma_shift_single(put_place_best_score as u64);
        crate::bit::lemma_popcount_single_bit(1u64 << put_place_best_score);
        if empties_spec(*board) <= SWITCH_EMPTIES_SIMPLE_NWS {
            lemma_perfect_value_bounds(*board);
            if eval != 1 {
                assert forall|j: u64| j < 64 && #[trigger] crate::bit::bit64(legal_moves, j) implies
                    -perfect_value(board.apply_move_spec(1u64 << j)) <= 0 by {
                    let k0 = choose|k0: int|
                        0 <= k0 < put_boards@.len() && (#[trigger] put_boards@[k0]).put_place == j;
                    assert(child_of(*board, legal_moves, put_boards@[k0]));
                    crate::search::lemma_child_move(*board, legal_moves, put_boards@[k0]);
                    assert((1u64 << j) == (1u64 << put_boards@[k0].put_place));
                }
                crate::bit::lemma_and_idem(legal_moves);
                lemma_best_reply_le(*board, legal_moves, 0);
                assert(perfect_value(*board) == best_reply_value(*board, legal_moves));
            }
            if eval == -1 {
                assert forall|j: u64| j < 64 && #[trigger] crate::bit::bit64(legal_moves, j) implies
                    -perfect_value(board.apply_move_spec(1u64 << j)) <= -1 by {
                    let k0 = choose|k0: int|
                        0 <= k0 < put_boards@.len() && (#[trigger] put_boards@[k0]).put_place == j;
                    assert(child_of(*board, legal_moves, put_boards@[k0]));
                    crate::search::lemma_child_move(*board, legal_moves, put_boards@[k0]);
                    assert((1u64 << j) == (1u64 << put_boards@[k0].put_place));
                    if -perfect_value(put_boards@[k0 as int].board) == 0 {
                        let kc = choose|kc: int|
                            0 <= kc < draw_or_lose_board_index@.len()
                                && draw_or_lose_board_index@[kc] as int == k0;
                        assert(-perfect_value(
                            put_boards@[draw_or_lose_board_index@[kc] as int].board,
                        ) <= -1);
                    }
                }
                crate::bit::lemma_and_idem(legal_moves);
                lemma_best_reply_le(*board, legal_moves, -1);
                assert(perfect_value(*board) == best_reply_value(*board, legal_moves));
            }
            if eval == 0 {
                let mb = 1u64 << put_place_best_score;
                crate::bit::lemma_single_bit_member(mb, legal_moves);
                crate::bit::lemma_and_idem(legal_moves);
                lemma_best_reply_ge(*board, legal_moves, mb);
                assert(perfect_value(*board) == best_reply_value(*board, legal_moves));
            }
        }
    }
    Ok(
        SolverResult {
            best_move: 1u64 << put_place_best_score,
            eval,
            node_count: search.perfect_search_node_count,
            leaf_node_count: search.perfect_search_leaf_node_count,
        },
    )
}

/// Estimates the best move by heuristic search `lv` plies deep, with the
/// same root discipline as the exact solver.
pub fn eval_solver(board: &Board, lv: i32, search: &mut Search) -> (r: Result<
    SolverResult,
    SolverErr,
>)
    requires
        board.wf(),
        4 <= popcount(board.occupied()),
        1 <= lv <= 60,
        old(search).wf(),
    ensures
        search_preserved(*old(search), *final(search)),
        r is Err <==> legal_spec(board.player(), board.opponent()) == 0,
        r matches Ok(res) ==> solver_result_ok(*board, res),
        old(search).selectivity_lv == 0 && lv <= SWITCH_NEGAALPHA_SEARCH_LEVEL ==> (r matches Ok(
            res,
        ) ==> res.eval == eval_value_of(*old(search), *board, lv as int) && res.eval
            == -eval_value_of(*old(search), board.apply_move_spec(res.best_move), lv as int - 1)),
{
    let legal_moves = board.put_able();
    if legal_moves == 0 {
        return Err(SolverErr::NoMove);
    }
    proof {
        crate::search::lemma_room_left(board.occupied(), legal_moves);
        crate::bit::lemma_popcount_le_64(board.occupied());
        lemma_popcount_pos(legal_moves);
    }

    if lv > 6 {
        pvs_eval(board, 0 - SCORE_INF, SCORE_INF, lv - 3, search);
    }

    let put_boards = if lv - 3 <= 0 {
        get_put_boards(board, legal_moves)
    } else {
        let mo_lv = if lv - 4 < 8 {
            lv - 4
        } else {
            8
        };
        move_ordering_eval(board, legal_moves, mo_lv, search)
    };
    proof {
        assert(child_of(*board, legal_moves, put_boards@[0]));
    }

    let mut alpha: i32 = 0 - SCORE_INF;
    let beta: i32 = SCORE_INF;

    let first_child = put_boards[0];
    alpha = 0 - pvs_eval(&first_child.board, 0 - beta, 0 - alpha, lv - 1, search);
    let mut put_place_best_score = first_child.put_place;
    proof {
        if old(search).selectivity_lv == 0 && lv <= SWITCH_NEGAALPHA_SEARCH_LEVEL {
            crate::search::lemma_child_move(*board, legal_moves, put_boards@[0]);
            lemma_eval_value_bounds(
                old(search).eval_func.eval@,
                old(search).eval_func.patterns@,
                first_child.board,
                lv as int - 1,
            );
            assert(alpha as int == -eval_value_of(
                *old(search),
                board.apply_move_spec(1u64 << put_place_best_score),
                lv as int - 1,
            ));
        }
    }

    let mut i: usize = 1;
    while i < put_boards.len()
        invariant
            board.wf(),
            4 <= popcount(board.occupied()),
            legal_spec(board.player(), board.opponent()) != 0,
            legal_moves == legal_spec(board.player(), board.opponent()),
            0 <= lv - 1 <= 59,
            -SCORE_INF <= alpha,
            alpha <= SCORE_INF,
            beta == SCORE_INF,
            put_place_best_score < 64,
            ((1u64 << put_place_best_score) & legal_moves) != 0,
            search.wf(),
            search_preserved(*old(search), *search),
            forall|j: int|
                0 <= j < put_boards@.len() ==> child_of(*board, legal_moves, #[trigger] put_boards@[j]),
            forall|j: u64|
                j < 64 && #[trigger] crate::bit::bit64(legal_moves, j) ==> exists|k: int|
                    0 <= k < put_boards@.len() && (#[trigger] put_boards@[k]).put_place == j,
            old(search).selectivity_lv == 0 && lv <= SWITCH_NEGAALPHA_SEARCH_LEVEL ==> (-64
                <= alpha && alpha <= 64 && alpha as int == -eval_value_of(
                *old(search),
                board.apply_move_spec(1u64 << put_place_best_score),
                lv as int - 1,
            ) && (forall|j: int|
                0 <= j < i ==> -eval_value_of(
                    *old(search),
                    (#[trigger] put_boards@[j]).board,
                    lv as int - 1,
                ) <= alpha as int)),
        decreases put_boards@.len() - i,
    {
        proof {
            assert(child_of(*board, legal_moves, put_boards@[i as int]));
            if old(search).selectivity_lv == 0 && lv <= SWITCH_NEGAALPHA_SEARCH_LEVEL {
                crate::search::lemma_child_move(*board, legal_moves, put_boards@[i as int]);
                lemma_eval_value_bounds(
                    old(search).eval_func.eval@,
                    old(search).eval_func.patterns@,
                    put_boards@[i as int].board,
                    lv as int - 1,
                );
            }
        }
        let put = put_boards[i];
        let mut score = 0 - nws_eval(&put.board, 0 - alpha - 1, lv - 1, search);
        if score > alpha {
            score = 0 - pvs_eval(&put.board, 0 - beta, 0 - alpha, lv - 1, search);
            if score > alpha {
                alpha = score;
                put_place_best_score = put.put_place;
            }
        }
        i += 1;
    }

    proof {
        crate::bit::lemma_shift_single(put_place_best_score as u64);
        crate::bit::lemma_popcount_single_bit(1u64 << put_place_best_score);
        if old(search).selectivity_lv == 0 && lv <= SWITCH_NEGAALPHA_SEARCH_LEVEL {
            let mb = 1u64 << put_place_best_score;
            crate::bit::lemma_single_bit_member(mb, legal_moves);
            assert forall|j: u64| j < 64 && #[trigger] crate::bit::bit64(legal_moves, j) implies
                -crate::eval_search::eval_value(
                old(search).eval_func.eval@,
                old(search).eval_func.patterns@,
                board.apply_move_spec(1u64 << j),
                lv as int - 1,
            ) <= alpha as int by {
                let k = choose|k: int|
                    0 <= k < put_boards@.len() && (#[trigger] put_boards@[k]).put_place == j;
                assert(child_of(*board, legal_moves, put_boards@[k]));
                assert((1u64 << j) == (1u64 << put_boards@[k].put_place));
                assert(-eval_value_of(*old(search), put_boards@[k].board, lv as int - 1)
                    <= alpha as int);
            }
            crate::bit::lemma_and_idem(legal_moves);
            lemma_eval_best_reply_le(
                old(search).eval_func.eval@,
                old(search).eval_func.patterns@,
                *board,
                legal_moves,
                alpha as int,
                lv as int,
            );
            lemma_eval_best_reply_ge(
                old(search).eval_func.eval@,
                old(search).eval_func.patterns@,
                *board,
                legal_moves,
                mb,
                lv as int,
            );
            assert(eval_value_of(*old(search), *board, lv as int)
                == crate::eval_search::eval_best_reply(
                old(search).eval_func.eval@,
                old(search).eval_func.patterns@,
                *board,
                legal_moves,
                lv as int,
            ));
        }
    }
    Ok(
        SolverResult {
            best_move: 1u64 << put_place_best_score,
            eval: alpha,
            node_count: search.eval_search_node_count,
            leaf_node_count: search.eval_search_leaf_node_count,
        },
    )
}

} // verus!
