//! Heuristic mid-game search: negamax with alpha-beta pruning over the
//! pattern evaluator's leaf scores, in plain, null-window and
//! principal-variation variants, with optional probabilistic cuts.

use crate::bit::lemma_popcount_le_64;
use crate::bit::popcount;
use crate::bit::take_lowest_bit;
use crate::board::legal_spec;
use crate::board::Board;
use crate::mpc::eval_search_mpc;
use crate::mpc::ProbCutResult;
use crate::perfect_search::solve_score;
use crate::perfect_search::solve_score_spec;
use crate::search::child_of;
use crate::search::count_up;
use crate::search::fail_soft;
use crate::search::lv_rank;
use crate::search::move_ordering_eval;
use crate::search::pass_rank;
use crate::search::search_preserved;
use crate::search::t_table_cut_off;
use crate::search::terminal_spec;
use crate::search::Search;
use crate::search::SCORE_INF;
use crate::search::NO_COORD;
use vstd::prelude::*;

verus! {

/// The evaluator's leaf score of a position, over the evaluator state
/// after its feature refresh: the scaled, clamped weight sum.
pub open spec fn leaf_eval_spec(s: Search, b: Board) -> int {
    crate::eval::Evaluator::scaled_score(
        crate::eval::pattern_sum(
            s.eval_func.eval@[b.next_turn as int]@[crate::eval::phase_of(b)].pattern_eval@,
            s.eval_func.feature_bit@,
            crate::eval::N_PATTERN as int,
        ) + s.eval_func.eval@[b.next_turn as int]@[crate::eval::phase_of(b)].mobility_eval@[crate::eval::mobility_index(
            b,
        )] + s.eval_func.eval@[b.next_turn as int]@[crate::eval::phase_of(b)].const_eval,
    )
}

/// Sum of the four rotation weights of the first `n` patterns, looked up
/// at the feature codes the position itself induces.
pub open spec fn pattern_sum_of(pe: Seq<Vec<i16>>, pats: Seq<crate::eval::CoordToFeature>,
    p: u64, o: u64, n: int) -> int
    decreases n,
{
    if n <= 0 {
        0
    } else {
        pattern_sum_of(pe, pats, p, o, n - 1) + pe[n - 1]@[crate::eval::feature_code(
            p,
            o,
            pats[n - 1].feature_coord@[0]@,
        )] + pe[n - 1]@[crate::eval::feature_code(p, o, pats[n - 1].feature_coord@[1]@)] + pe[n
            - 1]@[crate::eval::feature_code(p, o, pats[n - 1].feature_coord@[2]@)] + pe[n
            - 1]@[crate::eval::feature_code(p, o, pats[n - 1].feature_coord@[3]@)]
    }
}

/// Feature codes refreshed from a position reproduce the weight sum that
/// the position itself induces.
pub proof fn lemma_pattern_sum_codes(pe: Seq<Vec<i16>>, fb: Seq<Vec<u16>>,
    pats: Seq<crate::eval::CoordToFeature>, p: u64, o: u64, n: int)
    requires
        forall|q: int, rt: int|
            0 <= q < n && 0 <= rt < crate::eval::N_ROTATION ==> #[trigger] fb[q]@[rt]
                == crate::eval::feature_code(p, o, pats[q].feature_coord@[rt]@),
    ensures
        crate::eval::pattern_sum(pe, fb, n) == pattern_sum_of(pe, pats, p, o, n),
    decreases n,
{
    if n > 0 {
        lemma_pattern_sum_codes(pe, fb, pats, p, o, n - 1);
        assert(fb[n - 1]@[0] == crate::eval::feature_code(p, o, pats[n - 1].feature_coord@[0]@));
        assert(fb[n - 1]@[1] == crate::eval::feature_code(p, o, pats[n - 1].feature_coord@[1]@));
        assert(fb[n - 1]@[2] == crate::eval::feature_code(p, o, pats[n - 1].feature_coord@[2]@));
        assert(fb[n - 1]@[3] == crate::eval::feature_code(p, o, pats[n - 1].feature_coord@[3]@));
    }
}

/// The evaluator's leaf score as a function of the weight tables, the
/// pattern shapes and the position alone.
pub open spec fn leaf_value(ev: Seq<Vec<crate::eval::EvaluationScores>>,
    pats: Seq<crate::eval::CoordToFeature>, b: Board) -> int {
    crate::eval::Evaluator::scaled_score(
        pattern_sum_of(
            ev[b.next_turn as int]@[crate::eval::phase_of(b)].pattern_eval@,
            pats,
            b.player(),
            b.opponent(),
            crate::eval::N_PATTERN as int,
        ) + ev[b.next_turn as int]@[crate::eval::phase_of(b)].mobility_eval@[crate::eval::mobility_index(
            b,
        )] + ev[b.next_turn as int]@[crate::eval::phase_of(b)].const_eval,
    )
}

/// The depth-`lv` heuristic value of a position, from the side to move:
/// once the depth budget is spent the leaf is scored by the evaluator, a
/// finished game scores by exact disc differential, a blocked mover
/// passes for the negated value without spending depth, and otherwise
/// the value is the best reply over the legal moves. Outside well-formed
/// positions the value is pinned to zero.
pub open spec fn eval_value(ev: Seq<Vec<crate::eval::EvaluationScores>>,
    pats: Seq<crate::eval::CoordToFeature>, b: Board, lv: int) -> int
    decreases lv_rank(lv), 65int + pass_rank(b),
        via eval_value_decreases
{
    if !(b.wf() && 4 <= popcount(b.occupied())) {
        0
    } else if lv <= 0 {
        leaf_value(ev, pats, b)
    } else if legal_spec(b.player(), b.opponent()) == 0 {
        if legal_spec(b.opponent(), b.player()) == 0 {
            solve_score_spec(b)
        } else {
            -eval_value(ev, pats, b.passed(), lv)
        }
    } else {
        eval_best_reply(ev, pats, b, legal_spec(b.player(), b.opponent()), lv)
    }
}

/// The best negated depth-`lv - 1` reply value over the moves still in
/// `moves`, walked lowest bit first; the empty set ranks below every
/// real score.
pub open spec fn eval_best_reply(ev: Seq<Vec<crate::eval::EvaluationScores>>,
    pats: Seq<crate::eval::CoordToFeature>, b: Board, moves: u64, lv: int) -> int
    decreases lv_rank(lv), popcount(moves) as int,
        via eval_best_reply_decreases
{
    if !(b.wf() && 4 <= popcount(b.occupied()) && moves & legal_spec(b.player(), b.opponent())
        == moves && lv >= 1) {
        -127
    } else if moves == 0 {
        -127
    } else {
        let m = crate::bit::lowest_bit(moves);
        let c = -eval_value(ev, pats, b.apply_move_spec(m), lv - 1);
        let rest = eval_best_reply(ev, pats, b, moves ^ m, lv);
        if c >= rest {
            c
        } else {
            rest
        }
    }
}

#[via_fn]
proof fn eval_value_decreases(ev: Seq<Vec<crate::eval::EvaluationScores>>,
    pats: Seq<crate::eval::CoordToFeature>, b: Board, lv: int) {
    crate::bit::lemma_popcount_le_64(b.occupied());
    crate::bit::lemma_popcount_le_64(legal_spec(b.player(), b.opponent()));
}

#[via_fn]
proof fn eval_best_reply_decreases(ev: Seq<Vec<crate::eval::EvaluationScores>>,
    pats: Seq<crate::eval::CoordToFeature>, b: Board, moves: u64, lv: int) {
    if b.wf() && 4 <= popcount(b.occupied()) && moves & legal_spec(b.player(), b.opponent())
        == moves && lv >= 1 && moves != 0 {
        let legal = legal_spec(b.player(), b.opponent());
        crate::board::lemma_legal_subset_blank(b.player(), b.opponent());
        crate::board::lemma_or_comm(b.player(), b.opponent());
        crate::board::lemma_and_comm(b.black(), b.white());
        crate::bit::lemma_lowest_bit(moves);
        crate::bit::lemma_pick_move(crate::bit::lowest_bit(moves), moves, legal, b.occupied());
        crate::bit::lemma_popcount_remove_subset(moves, crate::bit::lowest_bit(moves));
    }
}

/// The depth-bounded heuristic value stays within one board of stones.
pub proof fn lemma_eval_value_bounds(ev: Seq<Vec<crate::eval::EvaluationScores>>,
    pats: Seq<crate::eval::CoordToFeature>, b: Board, lv: int)
    requires
        b.wf(),
        4 <= popcount(b.occupied()),
    ensures
        -64 <= eval_value(ev, pats, b, lv),
        eval_value(ev, pats, b, lv) <= 64,
    decreases lv_rank(lv), 65int + pass_rank(b),
{
    crate::bit::lemma_popcount_le_64(b.occupied());
    if lv <= 0 {
    } else {
        let legal = legal_spec(b.player(), b.opponent());
        if legal == 0 {
            if legal_spec(b.opponent(), b.player()) == 0 {
                crate::perfect_search::lemma_solve_score_spec_bounds(b);
            } else {
                lemma_eval_value_bounds(ev, pats, b.passed(), lv);
            }
        } else {
            crate::bit::lemma_and_idem(legal);
            crate::bit::lemma_popcount_pos(legal);
            crate::bit::lemma_popcount_le_64(legal);
            lemma_eval_best_reply_bounds(ev, pats, b, legal, lv);
        }
    }
}

/// A nonempty move set's best heuristic reply value stays within one
/// board of stones.
pub proof fn lemma_eval_best_reply_bounds(ev: Seq<Vec<crate::eval::EvaluationScores>>,
    pats: Seq<crate::eval::CoordToFeature>, b: Board, moves: u64, lv: int)
    requires
        b.wf(),
        4 <= popcount(b.occupied()),
        moves & legal_spec(b.player(), b.opponent()) == moves,
        moves != 0,
        lv >= 1,
    ensures
        -64 <= eval_best_reply(ev, pats, b, moves, lv),
        eval_best_reply(ev, pats, b, moves, lv) <= 64,
    decreases lv_rank(lv), popcount(moves) as int,
{
    let legal = legal_spec(b.player(), b.opponent());
    crate::board::lemma_legal_subset_blank(b.player(), b.opponent());
    crate::board::lemma_or_comm(b.player(), b.opponent());
    crate::board::lemma_and_comm(b.black(), b.white());
    let m = crate::bit::lowest_bit(moves);
    crate::bit::lemma_lowest_bit(moves);
    crate::bit::lemma_pick_move(m, moves, legal, b.occupied());
    crate::bit::lemma_popcount_remove_subset(moves, m);
    crate::board::lemma_apply_move_props(b, m);
    crate::bit::lemma_popcount_le_64(b.occupied());
    crate::search::lemma_room_left(b.occupied(), m);
    lemma_eval_value_bounds(ev, pats, b.apply_move_spec(m), lv - 1);
    let c = -eval_value(ev, pats, b.apply_move_spec(m), lv - 1);
    let rest = eval_best_reply(ev, pats, b, moves ^ m, lv);
    assert(eval_best_reply(ev, pats, b, moves, lv) == if c >= rest {
        c
    } else {
        rest
    });
    if moves ^ m != 0 {
        lemma_eval_best_reply_bounds(ev, pats, b, moves ^ m, lv);
    } else {
        assert(rest == -127);
    }
}

/// The best heuristic reply value is at least the negated value after
/// any one of the moves in the set.
pub proof fn lemma_eval_best_reply_ge(ev: Seq<Vec<crate::eval::EvaluationScores>>,
    pats: Seq<crate::eval::CoordToFeature>, b: Board, moves: u64, m: u64, lv: int)
    requires
        b.wf(),
        4 <= popcount(b.occupied()),
        moves & legal_spec(b.player(), b.opponent()) == moves,
        moves != 0,
        m != 0,
        m & vstd::prelude::sub(m, 1) == 0,
        m & moves == m,
        lv >= 1,
    ensures
        eval_best_reply(ev, pats, b, moves, lv) >= -eval_value(ev, pats, b.apply_move_spec(m), lv
            - 1),
    decreases popcount(moves) as int,
{
    let legal = legal_spec(b.player(), b.opponent());
    crate::board::lemma_legal_subset_blank(b.player(), b.opponent());
    crate::board::lemma_or_comm(b.player(), b.opponent());
    crate::board::lemma_and_comm(b.black(), b.white());
    let low = crate::bit::lowest_bit(moves);
    crate::bit::lemma_lowest_bit(moves);
    crate::bit::lemma_pick_move(low, moves, legal, b.occupied());
    crate::bit::lemma_pick_move(m, moves, legal, b.occupied());
    crate::bit::lemma_popcount_remove_subset(moves, low);
    crate::bit::lemma_popcount_le_64(b.occupied());
    crate::search::lemma_room_left(b.occupied(), m);
    let c_low = -eval_value(ev, pats, b.apply_move_spec(low), lv - 1);
    let rest = eval_best_reply(ev, pats, b, moves ^ low, lv);
    assert(eval_best_reply(ev, pats, b, moves, lv) == if c_low >= rest {
        c_low
    } else {
        rest
    });
    if m != low {
        crate::bit::lemma_other_bit_stays(m, moves, low);
        lemma_eval_best_reply_ge(ev, pats, b, moves ^ low, m, lv);
    }
}

/// When every move in the set answers with a negated value at most
/// `bound`, the best reply value is at most `bound` too.
pub proof fn lemma_eval_best_reply_le(ev: Seq<Vec<crate::eval::EvaluationScores>>,
    pats: Seq<crate::eval::CoordToFeature>, b: Board, moves: u64, bound: int, lv: int)
    requires
        b.wf(),
        4 <= popcount(b.occupied()),
        moves & legal_spec(b.player(), b.opponent()) == moves,
        lv >= 1,
        -127 <= bound,
        forall|j: u64|
            j < 64 && #[trigger] crate::bit::bit64(moves, j) ==> -eval_value(
                ev,
                pats,
                b.apply_move_spec(1u64 << j),
                lv - 1,
            ) <= bound,
    ensures
        eval_best_reply(ev, pats, b, moves, lv) <= bound,
    decreases popcount(moves) as int,
{
    if moves != 0 {
        let legal = legal_spec(b.player(), b.opponent());
        crate::board::lemma_legal_subset_blank(b.player(), b.opponent());
        crate::board::lemma_or_comm(b.player(), b.opponent());
        crate::board::lemma_and_comm(b.black(), b.white());
        let m = crate::bit::lowest_bit(moves);
        crate::bit::lemma_lowest_bit(moves);
        crate::bit::lemma_pick_move(m, moves, legal, b.occupied());
        crate::bit::lemma_popcount_remove_subset(moves, m);
        crate::bit::lemma_single_bit_has_index(m);
        let t = choose|t: u64| t < 64 && m == (1u64 << t) && crate::bit::bit64(m, t);
        assert(crate::bit::bit64(moves, t));
        assert(-eval_value(ev, pats, b.apply_move_spec(m), lv - 1) <= bound);
        assert forall|j: u64| j < 64 && #[trigger] crate::bit::bit64(moves ^ m, j) implies
            -eval_value(ev, pats, b.apply_move_spec(1u64 << j), lv - 1) <= bound by {
            assert(crate::bit::bit64(moves, j)) by {
                crate::bit::lemma_bit_in_diff(moves, m, j);
            }
        }
        lemma_eval_best_reply_le(ev, pats, b, moves ^ m, bound, lv);
        let c = -eval_value(ev, pats, b.apply_move_spec(m), lv - 1);
        let rest = eval_best_reply(ev, pats, b, moves ^ m, lv);
        assert(eval_best_reply(ev, pats, b, moves, lv) == if c >= rest {
            c
        } else {
            rest
        });
    }
}

/// The depth-bounded heuristic value under the context's own evaluator.
pub open spec fn eval_value_of(s: Search, b: Board, lv: int) -> int {
    eval_value(s.eval_func.eval@, s.eval_func.patterns@, b, lv)
}

/// The best heuristic reply under the context's own evaluator.
pub open spec fn eval_best_reply_of(s: Search, b: Board, moves: u64, lv: int) -> int {
    eval_best_reply(s.eval_func.eval@, s.eval_func.patterns@, b, moves, lv)
}

/// Depth at which the null-window and principal-variation drivers hand
/// over to the table-free variants.
pub const SWITCH_SIMPLE_SEARCH_LEVEL: i32 = 6;

/// Depth at which the table-free drivers hand over to plain alpha-beta.
pub const SWITCH_NEGAALPHA_SEARCH_LEVEL: i32 = 4;

/// Plain negamax with alpha-beta pruning, scored by the evaluator once
/// the depth budget runs out. The score is from the side to move; a
/// finished game is scored by exact disc differential.
pub fn negaalpha_eval(board: &Board, alpha: i32, beta: i32, lv: i32, search: &mut Search) -> (r:
    i32)
    requires
        board.wf(),
        4 <= popcount(board.occupied()),
        -128 <= alpha,
        alpha <= beta,
        beta <= 128,
        alpha <= 127,
        -127 <= beta,
        beta <= 127 || alpha >= 64,
        alpha >= -127 || beta <= -64,
        lv <= 60,
        old(search).wf(),
    ensures
        search_preserved(*old(search), *final(search)),
        -SCORE_INF <= r,
        r <= SCORE_INF,
        lv > 0 && terminal_spec(*board) ==> r == solve_score_spec(*board),
        lv <= 0 ==> r == leaf_eval_spec(*final(search), *board) && (forall|p: int, rt: int|
            0 <= p < crate::eval::N_PATTERN && 0 <= rt < crate::eval::N_ROTATION
                ==> #[trigger] final(search).eval_func.feature_bit@[p]@[rt]
                == crate::eval::feature_code(
                board.player(),
                board.opponent(),
                old(search).eval_func.patterns@[p].feature_coord@[rt]@,
            )) && (old(search).eval_search_node_count < u64::MAX
            ==> final(search).eval_search_node_count == old(search).eval_search_node_count + 1)
            && (old(search).eval_search_leaf_node_count < u64::MAX
            ==> final(search).eval_search_leaf_node_count == old(
            search,
        ).eval_search_leaf_node_count + 1),
        old(search).selectivity_lv == 0 && alpha < beta ==> fail_soft(
            r as int,
            eval_value_of(*old(search), *board, lv as int),
            alpha as int,
            beta as int,
        ),
    decreases lv_rank(lv as int), pass_rank(*board), 10int,
{
    let mut cur_alpha = alpha;
    if lv <= 0 {
        search.eval_search_node_count = count_up(search.eval_search_node_count);
        search.eval_search_leaf_node_count = count_up(search.eval_search_leaf_node_count);
        proof {
            lemma_popcount_le_64(board.occupied());
        }
        let r = search.eval_func.clac_features_eval(board);
        proof {
            lemma_pattern_sum_codes(
                search.eval_func.eval@[board.next_turn as int]@[crate::eval::phase_of(
                    *board,
                )].pattern_eval@,
                search.eval_func.feature_bit@,
                search.eval_func.patterns@,
                board.player(),
                board.opponent(),
                crate::eval::N_PATTERN as int,
            );
        }
        return r;
    }
    let legal_moves = board.put_able();

    if legal_moves == 0 {
        let mut passed = *board;
        passed.next_turn = 1 - passed.next_turn;
        if passed.put_able() == 0 {
            search.eval_search_node_count = count_up(search.eval_search_node_count);
            search.eval_search_leaf_node_count = count_up(search.eval_search_leaf_node_count);
            return solve_score(board);
        }
        let passed_score = negaalpha_eval(&passed, 0 - beta, 0 - cur_alpha, lv, search);
        proof {
            if old(search).selectivity_lv == 0 && alpha < beta {
                assert(passed == board.passed());
                assert(eval_value_of(*old(search), *board, lv as int) == -eval_value_of(
                    *old(search),
                    board.passed(),
                    lv as int,
                ));
            }
        }
        return 0 - passed_score;
    }
    search.eval_search_node_count = count_up(search.eval_search_node_count);
    proof {
        crate::search::lemma_room_left(board.occupied(), legal_moves);
    }

    match eval_search_mpc(board, cur_alpha, beta, lv, search) {
        ProbCutResult::Cut(score) => {
            proof {
                if old(search).selectivity_lv == 0 && alpha < beta {
                    lemma_eval_value_bounds(
                        old(search).eval_func.eval@,
                        old(search).eval_func.patterns@,
                        *board,
                        lv as int,
                    );
                }
            }
            return score;
        },
        ProbCutResult::FAIL => {},
    }

    let mut best_score: i32 = 0 - SCORE_INF;
    let mut moves = legal_moves;
    let ghost mut done: int = -127;
    proof {
        crate::bit::lemma_and_idem(legal_moves);
        if old(search).selectivity_lv == 0 && alpha < beta {
            lemma_eval_best_reply_bounds(
                old(search).eval_func.eval@,
                old(search).eval_func.patterns@,
                *board,
                legal_moves,
                lv as int,
            );
        }
    }
    while moves != 0
        invariant
            board.wf(),
            4 <= popcount(board.occupied()),
            legal_spec(board.player(), board.opponent()) != 0,
            legal_moves == legal_spec(board.player(), board.opponent()),
            popcount(board.occupied()) < 64,
            0 < lv,
            lv <= 60,
            moves & legal_moves == moves,
            legal_moves & board.occupied() == 0,
            alpha <= cur_alpha,
            -128 <= cur_alpha,
            cur_alpha <= beta,
            beta <= 128,
            cur_alpha <= 127,
            -127 <= beta,
            beta <= 127 || cur_alpha >= 64,
            cur_alpha >= -127 || beta <= -64,
            alpha < beta ==> cur_alpha < beta,
            cur_alpha == alpha || cur_alpha <= best_score,
            -SCORE_INF <= best_score,
            best_score <= SCORE_INF,
            search.wf(),
            search_preserved(*old(search), *search),
            old(search).selectivity_lv == 0 && alpha < beta ==> (eval_best_reply_of(*old(search), *board, legal_moves, lv as int) == (
            if done >= eval_best_reply_of(*old(search), *board, moves, lv as int) {
                done
            } else {
                eval_best_reply_of(*old(search), *board, moves, lv as int)
            }) && done <= best_score as int && (best_score > alpha ==> done == best_score as int)
                && -127 <= done && (best_score < beta || best_score == -127)),
        decreases popcount(moves),
    {
        let (put_place, rest) = take_lowest_bit(moves);
        proof {
            crate::bit::lemma_pick_move(put_place, moves, legal_moves, board.occupied());
        }
        let mut current_board = *board;
        current_board.put_piece_fast(put_place);
        let ghost child_value: int = eval_value_of(*old(search), current_board, lv as int - 1);
        let ghost brv_moves: int = eval_best_reply_of(*old(search), *board, moves, lv as int);
        let ghost brv_rest: int = eval_best_reply_of(*old(search), *board, rest, lv as int);
        proof {
            if old(search).selectivity_lv == 0 && alpha < beta {
                assert(brv_moves == if -child_value >= brv_rest {
                    -child_value
                } else {
                    brv_rest
                });
            }
        }
        let score = 0 - negaalpha_eval(&current_board, 0 - beta, 0 - cur_alpha, lv - 1, search);
        if score >= beta {
            proof {
                if old(search).selectivity_lv == 0 && alpha < beta {
                    assert(-child_value >= score as int);
                    crate::bit::lemma_and_idem(legal_moves);
                    lemma_eval_best_reply_ge(
                        old(search).eval_func.eval@,
                        old(search).eval_func.patterns@,
                        *board,
                        legal_moves,
                        put_place,
                        lv as int,
                    );
                    assert(current_board == board.apply_move_spec(put_place));
                    assert(eval_value_of(*old(search), *board, lv as int) == eval_best_reply_of(
                        *old(search),
                        *board,
                        legal_moves,
                        lv as int,
                    ));
                }
            }
            return score;
        }
        proof {
            if old(search).selectivity_lv == 0 && alpha < beta {
                let c: int = -child_value;
                if c > done {
                    done = c;
                }
            }
        }
        if score > cur_alpha {
            cur_alpha = score;
        }
        if score > best_score {
            best_score = score;
        }
        moves = rest;
    }

    proof {
        if old(search).selectivity_lv == 0 && alpha < beta {
            lemma_eval_value_bounds(
                old(search).eval_func.eval@,
                old(search).eval_func.patterns@,
                *board,
                lv as int,
            );
            assert(eval_best_reply_of(*old(search), *board, 0u64, lv as int) == -127);
            assert(eval_value_of(*old(search), *board, lv as int) == eval_best_reply_of(
                *old(search),
                *board,
                legal_moves,
                lv as int,
            ));
        }
    }
    best_score
}

/// Null-window probe without the transposition table: alpha-beta over the
/// window `[alpha, alpha + 1]`, handing over to plain alpha-beta near the
/// leaves.
pub fn nws_eval_simple(board: &Board, alpha: i32, lv: i32, search: &mut Search) -> (r: i32)
    requires
        board.wf(),
        4 <= popcount(board.occupied()),
        -128 <= alpha,
        alpha <= 127,
        lv <= 60,
        old(search).wf(),
    ensures
        search_preserved(*old(search), *final(search)),
        -SCORE_INF <= r,
        r <= SCORE_INF,
        lv > 0 && terminal_spec(*board) ==> r == solve_score_spec(*board),
        old(search).selectivity_lv == 0 ==> fail_soft(
            r as int,
            eval_value_of(*old(search), *board, lv as int),
            alpha as int,
            alpha as int + 1,
        ),
    decreases lv_rank(lv as int), pass_rank(*board), 20int,
{
    let beta = alpha + 1;

    if lv < SWITCH_NEGAALPHA_SEARCH_LEVEL {
        return negaalpha_eval(board, alpha, beta, lv, search);
    }
    let legal_moves: u64 = board.put_able();

    if legal_moves == 0 {
        let mut passed = *board;
        passed.next_turn = 1 - passed.next_turn;
        if passed.put_able() == 0 {
            search.eval_search_node_count = count_up(search.eval_search_node_count);
            search.eval_search_leaf_node_count = count_up(search.eval_search_leaf_node_count);
            return solve_score(board);
        }
        search.eval_search_node_count = count_up(search.eval_search_node_count);
        let passed_score = nws_eval_simple(&passed, 0 - beta, lv, search);
        proof {
            if old(search).selectivity_lv == 0 {
                assert(passed == board.passed());
                assert(eval_value_of(*old(search), *board, lv as int) == -eval_value_of(
                    *old(search),
                    board.passed(),
                    lv as int,
                ));
            }
        }
        return 0 - passed_score;
    }
    search.eval_search_node_count = count_up(search.eval_search_node_count);
    proof {
        crate::search::lemma_room_left(board.occupied(), legal_moves);
    }

    match eval_search_mpc(board, alpha, beta, lv, search) {
        ProbCutResult::Cut(score) => {
            proof {
                if old(search).selectivity_lv == 0 {
                    lemma_eval_value_bounds(
                        old(search).eval_func.eval@,
                        old(search).eval_func.patterns@,
                        *board,
                        lv as int,
                    );
                }
            }
            return score;
        },
        ProbCutResult::FAIL => {},
    }

    let put_boards = move_ordering_eval(board, legal_moves, 1, search);

    let mut best_score: i32 = 0 - SCORE_INF;
    let mut i: usize = 0;
    while i < put_boards.len()
        invariant
            board.wf(),
            4 <= popcount(board.occupied()),
            legal_spec(board.player(), board.opponent()) != 0,
            legal_moves == legal_spec(board.player(), board.opponent()),
            popcount(board.occupied()) < 64,
            SWITCH_NEGAALPHA_SEARCH_LEVEL <= lv,
            lv <= 60,
            -128 <= alpha,
            alpha <= 127,
            beta == alpha + 1,
            -SCORE_INF <= best_score,
            best_score <= SCORE_INF,
            search.wf(),
            search_preserved(*old(search), *search),
            forall|j: int|
                0 <= j < put_boards@.len() ==> child_of(*board, legal_moves, #[trigger] put_boards@[j]),
            forall|j: u64|
                j < 64 && #[trigger] crate::bit::bit64(legal_moves, j) ==> exists|k: int|
                    0 <= k < put_boards@.len() && (#[trigger] put_boards@[k]).put_place == j,
            old(search).selectivity_lv == 0 ==> (forall|j: int|
                0 <= j < i ==> -eval_value_of(
                    *old(search),
                    (#[trigger] put_boards@[j]).board,
                    lv as int - 1,
                ) <= best_score as int),
            i == 0 ==> best_score == 0 - SCORE_INF,
            old(search).selectivity_lv == 0 ==> (i > 0 ==> best_score <= alpha),
        decreases put_boards@.len() - i,
    {
        proof {
            assert(child_of(*board, legal_moves, put_boards@[i as int]));
        }
        let current = put_boards[i].board;
        let score = 0 - nws_eval_simple(&current, 0 - beta, lv - 1, search);
        if score >= beta {
            proof {
                if old(search).selectivity_lv == 0 {
                    crate::search::lemma_child_move(*board, legal_moves, put_boards@[i as int]);
                    crate::bit::lemma_and_idem(legal_moves);
                    lemma_eval_best_reply_ge(
                        old(search).eval_func.eval@,
                        old(search).eval_func.patterns@,
                        *board,
                        legal_moves,
                        1u64 << put_boards@[i as int].put_place,
                        lv as int,
                    );
                    assert(eval_value_of(*old(search), *board, lv as int) == eval_best_reply_of(
                        *old(search),
                        *board,
                        legal_moves,
                        lv as int,
                    ));
                }
            }
            return score;
        }
        if score > best_score {
            best_score = score;
        }
        i += 1;
    }

    proof {
        if old(search).selectivity_lv == 0 {
            crate::bit::lemma_popcount_pos(legal_moves);
            assert forall|j: u64| j < 64 && #[trigger] crate::bit::bit64(legal_moves, j) implies
                -eval_value(
                old(search).eval_func.eval@,
                old(search).eval_func.patterns@,
                board.apply_move_spec(1u64 << j),
                lv as int - 1,
            ) <= best_score as int by {
                let k = choose|k: int|
                    0 <= k < put_boards@.len() && (#[trigger] put_boards@[k]).put_place == j;
                assert(child_of(*board, legal_moves, put_boards@[k]));
                assert((1u64 << j) == (1u64 << put_boards@[k].put_place));
                assert(-eval_value_of(*old(search), put_boards@[k].board, lv as int - 1)
                    <= best_score as int);
            }
            crate::bit::lemma_and_idem(legal_moves);
            lemma_eval_best_reply_le(
                old(search).eval_func.eval@,
                old(search).eval_func.patterns@,
                *board,
                legal_moves,
                best_score as int,
                lv as int,
            );
            assert(eval_value_of(*old(search), *board, lv as int) == eval_best_reply_of(
                *old(search),
                *board,
                legal_moves,
                lv as int,
            ));
        }
    }
    best_score
}

/// Principal-variation search without the transposition table: the first
/// candidate with the full window, the rest probed with a null window and
/// re-searched only when the probe beats the best score so far.
pub fn pvs_eval_simple(board: &Board, alpha: i32, beta: i32, lv: i32, search: &mut Search) -> (r:
    i32)
    requires
        board.wf(),
        4 <= popcount(board.occupied()),
        -127 <= alpha,
        alpha <= beta,
        beta <= 127,
        lv <= 60,
        old(search).wf(),
    ensures
        search_preserved(*old(search), *final(search)),
        -SCORE_INF <= r,
        r <= SCORE_INF,
        lv > 0 && terminal_spec(*board) ==> r == solve_score_spec(*board),
        old(search).selectivity_lv == 0 && lv < SWITCH_NEGAALPHA_SEARCH_LEVEL && alpha < beta
            ==> fail_soft(
            r as int,
            eval_value_of(*old(search), *board, lv as int),
            alpha as int,
            beta as int,
        ),
    decreases lv_rank(lv as int), pass_rank(*board), 30int,
{
    if lv < SWITCH_NEGAALPHA_SEARCH_LEVEL {
        return negaalpha_eval(board, alpha, beta, lv, search);
    }
    let legal_moves = board.put_able();

    if legal_moves == 0 {
        let mut passed = *board;
        passed.next_turn = 1 - passed.next_turn;
        if passed.put_able() == 0 {
            search.eval_search_node_count = count_up(search.eval_search_node_count);
            search.eval_search_leaf_node_count = count_up(search.eval_search_leaf_node_count);
            return solve_score(board);
        }
        search.eval_search_node_count = count_up(search.eval_search_node_count);
        return 0 - pvs_eval_simple(&passed, 0 - beta, 0 - alpha, lv, search);
    }
    search.eval_search_node_count = count_up(search.eval_search_node_count);
    proof {
        crate::search::lemma_room_left(board.occupied(), legal_moves);
    }

    match eval_search_mpc(board, alpha, beta, lv, search) {
        ProbCutResult::Cut(score) => { return score },
        ProbCutResult::FAIL => {},
    }

    let put_boards = move_ordering_eval(board, legal_moves, 1, search);
    proof {
        crate::bit::lemma_popcount_pos(legal_moves);
        assert(child_of(*board, legal_moves, put_boards@[0]));
    }

    let mut this_node_alpha = alpha;
    let first_child_board = put_boards[0].board;
    let mut best_score = 0 - pvs_eval_simple(&first_child_board, 0 - beta, 0 - this_node_alpha, lv
        - 1, search);
    if best_score >= beta {
        return best_score;
    }
    if best_score > this_node_alpha {
        this_node_alpha = best_score;
    }

    let mut i: usize = 1;
    while i < put_boards.len()
        invariant
            board.wf(),
            4 <= popcount(board.occupied()),
            legal_spec(board.player(), board.opponent()) != 0,
            popcount(board.occupied()) < 64,
            SWITCH_NEGAALPHA_SEARCH_LEVEL <= lv,
            lv <= 60,
            -127 <= alpha,
            alpha <= beta,
            beta <= 127,
            -SCORE_INF <= best_score,
            best_score <= SCORE_INF,
            alpha <= this_node_alpha,
            this_node_alpha <= beta,
            this_node_alpha <= 127,
            search.wf(),
            search_preserved(*old(search), *search),
            forall|j: int|
                0 <= j < put_boards@.len() ==> child_of(*board, legal_moves, #[trigger] put_boards@[j]),
        decreases put_boards@.len() - i,
    {
        proof {
            assert(child_of(*board, legal_moves, put_boards@[i as int]));
        }
        let current = put_boards[i].board;
        let mut score = 0 - nws_eval_simple(&current, 0 - this_node_alpha - 1, lv - 1, search);
        if score >= beta {
            return score;
        }
        if score > best_score {
            if score > this_node_alpha {
                this_node_alpha = score;
            }
            score = 0 - pvs_eval_simple(&current, 0 - beta, 0 - this_node_alpha, lv - 1, search);
            if score >= beta {
                return score;
            }
            best_score = score;
            if score > this_node_alpha {
                this_node_alpha = score;
            }
        }
        i += 1;
    }

    best_score
}

/// Null-window probe with the transposition table, handing over to the
/// table-free probe near the leaves.
pub fn nws_eval(board: &Board, alpha: i32, lv: i32, search: &mut Search) -> (r: i32)
    requires
        board.wf(),
        4 <= popcount(board.occupied()),
        -128 <= alpha,
        alpha <= 127,
        lv <= 60,
        old(search).wf(),
    ensures
        search_preserved(*old(search), *final(search)),
        -SCORE_INF <= r,
        r <= SCORE_INF,
        lv > 0 && terminal_spec(*board) ==> r == solve_score_spec(*board),
        old(search).selectivity_lv == 0 && lv < SWITCH_SIMPLE_SEARCH_LEVEL ==> fail_soft(
            r as int,
            eval_value_of(*old(search), *board, lv as int),
            alpha as int,
            alpha as int + 1,
        ),
    decreases lv_rank(lv as int), pass_rank(*board), 40int,
{
    let mut alpha = alpha;
    let mut beta = alpha + 1;

    if lv < SWITCH_SIMPLE_SEARCH_LEVEL {
        return nws_eval_simple(board, alpha, lv, search);
    }
    let legal_moves: u64 = board.put_able();

    if legal_moves == 0 {
        let mut passed = *board;
        passed.next_turn = 1 - passed.next_turn;
        if passed.put_able() == 0 {
            search.eval_search_node_count = count_up(search.eval_search_node_count);
            search.eval_search_leaf_node_count = count_up(search.eval_search_leaf_node_count);
            return solve_score(board);
        }
        search.eval_search_node_count = count_up(search.eval_search_node_count);
        return 0 - nws_eval(&passed, 0 - beta, lv, search);
    }
    search.eval_search_node_count = count_up(search.eval_search_node_count);
    proof {
        crate::search::lemma_room_left(board.occupied(), legal_moves);
    }

    if let Some(score) = t_table_cut_off(
        board,
        &mut alpha,
        &mut beta,
        lv,
        search.selectivity_lv,
        &search.t_table,
    ) {
        return score;
    }

    match eval_search_mpc(board, alpha, beta, lv, search) {
        ProbCutResult::Cut(score) => { return score },
        ProbCutResult::FAIL => {},
    }

    let put_boards = move_ordering_eval(board, legal_moves, 1, search);
    let mut best_move: u8 = NO_COORD;

    let ghost board0 = *board;
    let mut best_score: i32 = 0 - SCORE_INF;
    let mut i: usize = 0;
    while i < put_boards.len()
        invariant
            board.wf(),
            4 <= popcount(board.occupied()),
            legal_spec(board.player(), board.opponent()) != 0,
            popcount(board.occupied()) < 64,
            SWITCH_SIMPLE_SEARCH_LEVEL <= lv,
            lv <= 60,
            -128 <= alpha,
            alpha <= 127,
            -127 <= beta,
            beta <= 128,
            alpha <= beta,
            -SCORE_INF <= best_score,
            best_score <= SCORE_INF,
            search.wf(),
            search_preserved(*old(search), *search),
            forall|j: int|
                0 <= j < put_boards@.len() ==> child_of(*board, legal_moves, #[trigger] put_boards@[j]),
        decreases put_boards@.len() - i,
    {
        proof {
            assert(child_of(*board, legal_moves, put_boards@[i as int]));
        }
        let put = put_boards[i];
        let score = 0 - nws_eval(&put.board, 0 - beta, lv - 1, search);
        if score >= beta {
            search.t_table.add(board, score, SCORE_INF, lv, search.selectivity_lv, put.put_place);
            return score;
        }
        if score > alpha {
            alpha = score;
        }
        if score > best_score {
            best_score = score;
            best_move = put.put_place;
        }
        i += 1;
    }

    if best_score > alpha {
        search.t_table.add(board, best_score, best_score, lv, search.selectivity_lv, best_move);
    } else {
        search.t_table.add(
            board,
            0 - SCORE_INF,
            best_score,
            lv,
            search.selectivity_lv,
            best_move,
        );
    }

    best_score
}

/// Principal-variation search with the transposition table: the main
/// mid-game driver, handing over to the table-free variant near the
/// leaves.
pub fn pvs_eval(board: &Board, alpha: i32, beta: i32, lv: i32, search: &mut Search) -> (r: i32)
    requires
        board.wf(),
        4 <= popcount(board.occupied()),
        -127 <= alpha,
        alpha <= beta,
        beta <= 127,
        lv <= 60,
        old(search).wf(),
    ensures
        search_preserved(*old(search), *final(search)),
        -SCORE_INF <= r,
        r <= SCORE_INF,
        lv > 0 && terminal_spec(*board) ==> r == solve_score_spec(*board),
        old(search).selectivity_lv == 0 && lv < SWITCH_NEGAALPHA_SEARCH_LEVEL && alpha < beta
            ==> fail_soft(
            r as int,
            eval_value_of(*old(search), *board, lv as int),
            alpha as int,
            beta as int,
        ),
    decreases lv_rank(lv as int), pass_rank(*board), 50int,
{
    let mut alpha = alpha;
    let mut beta = beta;
    if lv < SWITCH_SIMPLE_SEARCH_LEVEL {
        return pvs_eval_simple(board, alpha, beta, lv, search);
    }
    let legal_moves = board.put_able();

    if legal_moves == 0 {
        let mut passed = *board;
        passed.next_turn = 1 - passed.next_turn;
        if passed.put_able() == 0 {
            search.eval_search_node_count = count_up(search.eval_search_node_count);
            search.eval_search_leaf_node_count = count_up(search.eval_search_leaf_node_count);
            return solve_score(board);
        }
        search.eval_search_node_count = count_up(search.eval_search_node_count);
        return 0 - pvs_eval(&passed, 0 - beta, 0 - alpha, lv, search);
    }
    search.eval_search_node_count = count_up(search.eval_search_node_count);
    proof {
        crate::search::lemma_room_left(board.occupied(), legal_moves);
    }

    if let Some(score) = t_table_cut_off(
        board,
        &mut alpha,
        &mut beta,
        lv,
        search.selectivity_lv,
        &search.t_table,
    ) {
        return score;
    }

    match eval_search_mpc(board, alpha, beta, lv, search) {
        ProbCutResult::Cut(score) => { return score },
        ProbCutResult::FAIL => {},
    }

    let put_boards = move_ordering_eval(board, legal_moves, 1, search);
    proof {
        crate::bit::lemma_popcount_pos(legal_moves);
        assert(child_of(*board, legal_moves, put_boards@[0]));
    }

    let mut this_node_alpha = alpha;
    let first_child = put_boards[0];
    let mut best_score = 0 - pvs_eval(&first_child.board, 0 - beta, 0 - this_node_alpha, lv - 1,
        search);
    let mut best_move = first_child.put_place;
    if best_score >= beta {
        search.t_table.add(board, best_score, SCORE_INF, lv, search.selectivity_lv, best_move);
        return best_score;
    }
    if best_score > this_node_alpha {
        this_node_alpha = best_score;
    }

    let mut i: usize = 1;
    while i < put_boards.len()
        invariant
            board.wf(),
            4 <= popcount(board.occupied()),
            legal_spec(board.player(), board.opponent()) != 0,
            popcount(board.occupied()) < 64,
            SWITCH_SIMPLE_SEARCH_LEVEL <= lv,
            lv <= 60,
            -127 <= alpha,
            alpha <= 127,
            -127 <= beta,
            beta <= 127,
            alpha <= beta,
            -SCORE_INF <= best_score,
            best_score <= SCORE_INF,
            alpha <= this_node_alpha,
            this_node_alpha <= beta,
            this_node_alpha <= 127,
            search.wf(),
            search_preserved(*old(search), *search),
            forall|j: int|
                0 <= j < put_boards@.len() ==> child_of(*board, legal_moves, #[trigger] put_boards@[j]),
        decreases put_boards@.len() - i,
    {
        proof {
            assert(child_of(*board, legal_moves, put_boards@[i as int]));
        }
        let put = put_boards[i];
        let mut score = 0 - nws_eval(&put.board, 0 - this_node_alpha - 1, lv - 1, search);
        if score >= beta {
            search.t_table.add(board, score, SCORE_INF, lv, search.selectivity_lv, put.put_place);
            return score;
        }
        if score > best_score {
            best_move = put.put_place;
            if score > this_node_alpha {
                this_node_alpha = score;
            }
            score = 0 - pvs_eval(&put.board, 0 - beta, 0 - this_node_alpha, lv - 1, search);
            if score >= beta {
                search.t_table.add(
                    board,
                    score,
                    SCORE_INF,
                    lv,
                    search.selectivity_lv,
                    best_move,
                );
                return score;
            }
            best_score = score;
            if score > this_node_alpha {
                this_node_alpha = score;
            }
        }
        i += 1;
    }

    if best_score > alpha {
        search.t_table.add(board, best_score, best_score, lv, search.selectivity_lv, best_move);
    } else {
        search.t_table.add(
            board,
            0 - SCORE_INF,
            best_score,
            lv,
            search.selectivity_lv,
            best_move,
        );
    }

    best_score
}

} // verus!
