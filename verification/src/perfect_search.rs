//! Exact endgame search: the same negamax/alpha-beta/negascout family,
//! but every leaf is scored by the exact disc differential with the
//! remaining empty squares credited to the leader, never by the
//! heuristic evaluator.

use crate::bit::count_bits;
use crate::bit::lemma_popcount_disjoint_or;
use crate::bit::lemma_popcount_le_64;
use crate::bit::lemma_popcount_pos;
use crate::bit::popcount;
use crate::bit::take_lowest_bit;
use crate::board::legal_spec;
use crate::board::lemma_and_comm;
use crate::board::lemma_legal_subset_blank;
use crate::board::lemma_or_comm;
use crate::board::Board;
use crate::bit::lemma_popcount_max;
use crate::mpc::perfect_search_mpc;
use crate::mpc::ProbCutResult;
use crate::search::child_of;
use crate::search::count_up;
use crate::search::empties_spec;
use crate::search::move_ordering_eval;
use crate::search::move_ordering_ffs;
use crate::search::pass_rank;
use crate::search::search_preserved;
use crate::search::t_table_cut_off;
use crate::search::terminal_spec;
use crate::search::PutBoard;
use crate::search::Search;
use crate::search::NO_COORD;
use crate::search::SCORE_INF;
use vstd::prelude::*;

verus! {

/// Empties at which the table-using drivers hand over to the table-free
/// principal-variation variant.
pub const SWITCH_EMPTIES_SIMPLE_PVS: i32 = 8;

/// Empties at which the table-using null-window probe hands over to the
/// table-free one.
pub const SWITCH_EMPTIES_SIMPLE_NWS: i32 = 8;

/// Empties at which the table-free variants hand over to plain
/// alpha-beta.
pub const SWITCH_EMPTIES_NEGA_ALPHA: i32 = 6;

/// Empties above which move ordering invests in shallow evaluated
/// probes rather than the fast-first count.
pub const SWITCH_EMPTIES_MOVE_ORDER: i32 = 14;

/// The final score of a finished game, from the side to move: the disc
/// difference, with every empty square credited to the leader.
pub open spec fn solve_score_spec(b: Board) -> int {
    let p = popcount(b.player()) as int;
    let o = popcount(b.opponent()) as int;
    if p - o > 0 {
        (p - o) + (64 - p - o)
    } else if p - o < 0 {
        (p - o) - (64 - p - o)
    } else {
        0
    }
}

/// Scores a finished game: disc difference plus the empties, credited to
/// whichever side leads.
pub fn solve_score(board: &Board) -> (r: i32)
    requires
        board.wf(),
    ensures
        r == solve_score_spec(*board),
        -64 <= r,
        r <= 64,
{
    proof {
        lemma_and_comm(board.black(), board.white());
        lemma_or_comm(board.player(), board.opponent());
        lemma_popcount_disjoint_or(board.player(), board.opponent());
        lemma_popcount_le_64(board.player() | board.opponent());
    }
    let n_player: i32 = count_bits(board.bit_board[board.next_turn]) as i32;
    let n_opponent: i32 = count_bits(board.bit_board[1 - board.next_turn]) as i32;
    let diff: i32 = n_player - n_opponent;

    if diff > 0 {
        let n_empties: i32 = 64 - n_player - n_opponent;
        diff + n_empties
    } else if diff < 0 {
        let n_empties: i32 = 64 - n_player - n_opponent;
        diff - n_empties
    } else {
        0
    }
}

/// Scores a full board: twice the mover's stones less the whole board,
/// which on a board without empties equals the disc difference.
pub fn solve_score_0_empties(board: &Board) -> (r: i32)
    requires
        board.wf(),
        board.occupied() == u64::MAX,
    ensures
        r == solve_score_spec(*board),
        -64 <= r,
        r <= 64,
{
    proof {
        lemma_and_comm(board.black(), board.white());
        lemma_or_comm(board.player(), board.opponent());
        lemma_popcount_disjoint_or(board.player(), board.opponent());
        lemma_popcount_max();
    }
    2 * (count_bits(board.bit_board[board.next_turn]) as i32) - 64
}

/// The exact game value of a position, from the side to move: a finished
/// game scores by disc differential with the empties to the leader, a
/// blocked mover passes for the negated value, and otherwise the value
/// is the best reply over the legal moves. Outside well-formed positions
/// the value is pinned to zero.
pub open spec fn perfect_value(b: Board) -> int
    decreases empties_spec(b), 65int + pass_rank(b),
        via perfect_value_decreases
{
    if !(b.wf() && 4 <= popcount(b.occupied())) {
        0
    } else if legal_spec(b.player(), b.opponent()) == 0 {
        if legal_spec(b.opponent(), b.player()) == 0 {
            solve_score_spec(b)
        } else {
            -perfect_value(b.passed())
        }
    } else {
        best_reply_value(b, legal_spec(b.player(), b.opponent()))
    }
}

/// The best negated reply value over the moves still in `moves`, walked
/// lowest bit first; the empty set ranks below every real score.
pub open spec fn best_reply_value(b: Board, moves: u64) -> int
    decreases empties_spec(b), popcount(moves) as int,
        via best_reply_value_decreases
{
    if !(b.wf() && 4 <= popcount(b.occupied()) && moves & legal_spec(b.player(), b.opponent())
        == moves) {
        -127
    } else if moves == 0 {
        -127
    } else {
        let m = crate::bit::lowest_bit(moves);
        let c = -perfect_value(b.apply_move_spec(m));
        let rest = best_reply_value(b, moves ^ m);
        if c >= rest {
            c
        } else {
            rest
        }
    }
}

#[via_fn]
proof fn perfect_value_decreases(b: Board) {
    crate::bit::lemma_popcount_le_64(b.occupied());
    crate::bit::lemma_popcount_le_64(legal_spec(b.player(), b.opponent()));
}

#[via_fn]
proof fn best_reply_value_decreases(b: Board, moves: u64) {
    if b.wf() && 4 <= popcount(b.occupied()) && moves & legal_spec(b.player(), b.opponent())
        == moves && moves != 0 {
        let legal = legal_spec(b.player(), b.opponent());
        crate::board::lemma_legal_subset_blank(b.player(), b.opponent());
        crate::board::lemma_or_comm(b.player(), b.opponent());
        crate::board::lemma_and_comm(b.black(), b.white());
        crate::bit::lemma_lowest_bit(moves);
        crate::bit::lemma_pick_move(crate::bit::lowest_bit(moves), moves, legal, b.occupied());
        crate::bit::lemma_popcount_remove_subset(moves, crate::bit::lowest_bit(moves));
        crate::board::lemma_apply_move_props(b, crate::bit::lowest_bit(moves));
        crate::bit::lemma_popcount_le_64(b.occupied());
        crate::search::lemma_room_left(b.occupied(), crate::bit::lowest_bit(moves));
    }
}

/// The score of a finished game stays within one board of stones.
pub proof fn lemma_solve_score_spec_bounds(b: Board)
    requires
        b.wf(),
    ensures
        -64 <= solve_score_spec(b),
        solve_score_spec(b) <= 64,
{
    crate::board::lemma_and_comm(b.black(), b.white());
    crate::board::lemma_or_comm(b.player(), b.opponent());
    lemma_popcount_disjoint_or(b.player(), b.opponent());
    lemma_popcount_le_64(b.player() | b.opponent());
}

/// The exact game value stays within one board of stones.
pub proof fn lemma_perfect_value_bounds(b: Board)
    requires
        b.wf(),
        4 <= popcount(b.occupied()),
    ensures
        -64 <= perfect_value(b),
        perfect_value(b) <= 64,
    decreases empties_spec(b), 65int + pass_rank(b),
{
    crate::bit::lemma_popcount_le_64(b.occupied());
    let legal = legal_spec(b.player(), b.opponent());
    if legal == 0 {
        if legal_spec(b.opponent(), b.player()) == 0 {
            lemma_solve_score_spec_bounds(b);
        } else {
            lemma_perfect_value_bounds(b.passed());
        }
    } else {
        crate::bit::lemma_and_idem(legal);
        crate::bit::lemma_popcount_pos(legal);
        crate::bit::lemma_popcount_le_64(legal);
        lemma_best_reply_value_bounds(b, legal);
    }
}

/// A nonempty move set's best reply value stays within one board of
/// stones.
pub proof fn lemma_best_reply_value_bounds(b: Board, moves: u64)
    requires
        b.wf(),
        4 <= popcount(b.occupied()),
        moves & legal_spec(b.player(), b.opponent()) == moves,
        moves != 0,
    ensures
        -64 <= best_reply_value(b, moves),
        best_reply_value(b, moves) <= 64,
    decreases empties_spec(b), popcount(moves) as int,
{
    let legal = legal_spec(b.player(), b.opponent());
    crate::board::lemma_legal_subset_blank(b.player(), b.opponent());
    crate::board::lemma_or_comm(b.player(), b.opponent());
    crate::board::lemma_and_comm(b.black(), b.white());
    let m = crate::bit::lowest_bit(moves);
    crate::bit::lemma_lowest_bit(moves);
    crate::bit::lemma_pick_move(m, moves, legal, b.occupied());
    crate::bit::lemma_popcount_remove_subset(moves, m);
    crate::board::lemma_apply_move_props(b, m);
    crate::bit::lemma_popcount_le_64(b.occupied());
    crate::search::lemma_room_left(b.occupied(), m);
    lemma_perfect_value_bounds(b.apply_move_spec(m));
    let c = -perfect_value(b.apply_move_spec(m));
    let rest = best_reply_value(b, moves ^ m);
    assert(best_reply_value(b, moves) == if c >= rest {
        c
    } else {
        rest
    });
    if moves ^ m != 0 {
        lemma_best_reply_value_bounds(b, moves ^ m);
    } else {
        assert(rest == -127);
    }
}

/// The best reply value is at least the negated value after any one of
/// the moves in the set.
pub proof fn lemma_best_reply_ge(b: Board, moves: u64, m: u64)
    requires
        b.wf(),
        4 <= popcount(b.occupied()),
        moves & legal_spec(b.player(), b.opponent()) == moves,
        moves != 0,
        m != 0,
        m & vstd::prelude::sub(m, 1) == 0,
        m & moves == m,
    ensures
        best_reply_value(b, moves) >= -perfect_value(b.apply_move_spec(m)),
    decreases popcount(moves) as int,
{
    let legal = legal_spec(b.player(), b.opponent());
    crate::board::lemma_legal_subset_blank(b.player(), b.opponent());
    crate::board::lemma_or_comm(b.player(), b.opponent());
    crate::board::lemma_and_comm(b.black(), b.white());
    let low = crate::bit::lowest_bit(moves);
    crate::bit::lemma_lowest_bit(moves);
    crate::bit::lemma_pick_move(low, moves, legal, b.occupied());
    crate::bit::lemma_pick_move(m, moves, legal, b.occupied());
    crate::bit::lemma_popcount_remove_subset(moves, low);
    crate::bit::lemma_popcount_le_64(b.occupied());
    crate::search::lemma_room_left(b.occupied(), m);
    let c_low = -perfect_value(b.apply_move_spec(low));
    let rest = best_reply_value(b, moves ^ low);
    assert(best_reply_value(b, moves) == if c_low >= rest {
        c_low
    } else {
        rest
    });
    if m != low {
        crate::bit::lemma_other_bit_stays(m, moves, low);
        lemma_best_reply_ge(b, moves ^ low, m);
    }
}

/// When every move in the set answers with a negated value at most
/// `bound`, the best reply value is at most `bound` too.
pub proof fn lemma_best_reply_le(b: Board, moves: u64, bound: int)
    requires
        b.wf(),
        4 <= popcount(b.occupied()),
        moves & legal_spec(b.player(), b.opponent()) == moves,
        -127 <= bound,
        forall|j: u64|
            j < 64 && #[trigger] crate::bit::bit64(moves, j) ==> -perfect_value(
                b.apply_move_spec(1u64 << j),
            ) <= bound,
    ensures
        best_reply_value(b, moves) <= bound,
    decreases popcount(moves) as int,
{
    if moves != 0 {
        let legal = legal_spec(b.player(), b.opponent());
        crate::board::lemma_legal_subset_blank(b.player(), b.opponent());
        crate::board::lemma_or_comm(b.player(), b.opponent());
        crate::board::lemma_and_comm(b.black(), b.white());
        let m = crate::bit::lowest_bit(moves);
        crate::bit::lemma_lowest_bit(moves);
        crate::bit::lemma_pick_move(m, moves, legal, b.occupied());
        crate::bit::lemma_popcount_remove_subset(moves, m);
        crate::bit::lemma_single_bit_has_index(m);
        let t = choose|t: u64| t < 64 && m == (1u64 << t) && crate::bit::bit64(m, t);
        assert(crate::bit::bit64(moves, t));
        assert(-perfect_value(b.apply_move_spec(m)) <= bound);
        assert forall|j: u64| j < 64 && #[trigger] crate::bit::bit64(moves ^ m, j) implies
            -perfect_value(b.apply_move_spec(1u64 << j)) <= bound by {
            assert(crate::bit::bit64(moves, j)) by {
                let mm = moves;
                assert(((mm ^ m) >> j) & 1 == 1 && (m & mm == m) && (m & vstd::prelude::sub(m, 1))
                    == 0 && m != 0 ==> (mm >> j) & 1 == 1) by (bit_vector);
            }
        }
        lemma_best_reply_le(b, moves ^ m, bound);
        let c = -perfect_value(b.apply_move_spec(m));
        let rest = best_reply_value(b, moves ^ m);
        assert(best_reply_value(b, moves) == if c >= rest {
            c
        } else {
            rest
        });
    }
}

/// A blocked mover's exact value is the negated exact value of the
/// passed position.
pub proof fn lemma_perfect_value_pass(b: Board)
    requires
        b.wf(),
        4 <= popcount(b.occupied()),
        legal_spec(b.player(), b.opponent()) == 0,
        legal_spec(b.opponent(), b.player()) != 0,
    ensures
        perfect_value(b) == -perfect_value(b.passed()),
{
}

/// On a full board neither side can move.
proof fn lemma_full_board_terminal(b: Board)
    requires
        b.wf(),
        b.occupied() == u64::MAX,
    ensures
        terminal_spec(b),
{
    crate::board::lemma_and_comm(b.black(), b.white());
    crate::board::lemma_or_comm(b.player(), b.opponent());
    lemma_legal_subset_blank(b.player(), b.opponent());
    lemma_legal_subset_blank(b.opponent(), b.player());
    let p = b.player();
    let o = b.opponent();
    let l1 = legal_spec(p, o);
    let l2 = legal_spec(o, p);
    let po = p | o;
    let op = o | p;
    assert(po == 0xffff_ffff_ffff_ffffu64 && l1 & po == 0 && l2 & op == 0 && op == po ==> l1 == 0
        && l2 == 0) by (bit_vector);
}

/// Plain negamax with alpha-beta pruning over exact endgame scores, used
/// once few empties remain. With probabilistic cuts off, the result is a
/// fail-soft bound on the exact game value: exact inside the window, an
/// upper bound at or below alpha, a lower bound at or above beta.
pub fn negaalpha_perfect(board: &Board, alpha: i32, beta: i32, search: &mut Search) -> (r: i32)
    requires
        board.wf(),
        4 <= popcount(board.occupied()),
        -128 <= alpha,
        alpha <= beta,
        beta <= 128,
        alpha <= 127,
        -127 <= beta,
        beta <= 127 || alpha >= 64,
        alpha >= -127 || beta <= -64,
        old(search).wf(),
    ensures
        search_preserved(*old(search), *final(search)),
        -SCORE_INF <= r,
        r <= SCORE_INF,
        terminal_spec(*board) ==> r == solve_score_spec(*board),
        old(search).selectivity_lv == 0 && alpha < beta ==> ((r <= alpha ==> perfect_value(*board)
            <= r) && (r >= beta ==> perfect_value(*board) >= r) && (alpha < r && r < beta ==> r
            == perfect_value(*board))),
    decreases empties_spec(*board), pass_rank(*board), 10int,
{
    let mut cur_alpha = alpha;
    if (board.bit_board[0] | board.bit_board[1]) == u64::MAX {
        search.perfect_search_node_count = count_up(search.perfect_search_node_count);
        search.perfect_search_leaf_node_count = count_up(search.perfect_search_leaf_node_count);
        proof {
            lemma_full_board_terminal(*board);
        }
        return solve_score_0_empties(board);
    }
    let legal_moves = board.put_able();

    if legal_moves == 0 {
        if board.opponent_put_able() == 0 {
            search.perfect_search_node_count = count_up(search.perfect_search_node_count);
            search.perfect_search_leaf_node_count = count_up(
                search.perfect_search_leaf_node_count,
            );
            return solve_score(board);
        }
        let mut passed = *board;
        passed.next_turn = 1 - passed.next_turn;
        let passed_score = negaalpha_perfect(&passed, 0 - beta, 0 - cur_alpha, search);
        proof {
            if old(search).selectivity_lv == 0 && alpha < beta {
                assert(perfect_value(*board) == -perfect_value(board.passed()));
                assert(passed == board.passed());
            }
        }
        return 0 - passed_score;
    }

    proof {
        crate::search::lemma_room_left(board.occupied(), legal_moves);
    }
    match perfect_search_mpc(board, cur_alpha, beta, search) {
        ProbCutResult::Cut(score) => {
            proof {
                if old(search).selectivity_lv == 0 && alpha < beta {
                    lemma_perfect_value_bounds(*board);
                }
            }
            return score;
        },
        ProbCutResult::FAIL => {},
    }

    search.perfect_search_node_count = count_up(search.perfect_search_node_count);
    let mut best_score: i32 = 0 - SCORE_INF;
    let mut moves = legal_moves;
    let ghost mut done: int = -127;
    proof {
        crate::bit::lemma_and_idem(legal_moves);
        if old(search).selectivity_lv == 0 && alpha < beta {
            lemma_best_reply_value_bounds(*board, legal_moves);
        }
    }
    while moves != 0
        invariant
            board.wf(),
            4 <= popcount(board.occupied()),
            legal_spec(board.player(), board.opponent()) != 0,
            legal_moves == legal_spec(board.player(), board.opponent()),
            popcount(board.occupied()) < 64,
            moves & legal_moves == moves,
            legal_moves & board.occupied() == 0,
            alpha <= cur_alpha,
            -128 <= cur_alpha,
            cur_alpha <= beta,
            beta <= 128,
            cur_alpha <= 127,
            -127 <= beta,
            beta <= 127 || cur_alpha >= 64,
            cur_alpha >= -127 || beta <= -64,
            alpha < beta ==> cur_alpha < beta,
            cur_alpha == alpha || cur_alpha <= best_score,
            -SCORE_INF <= best_score,
            best_score <= SCORE_INF,
            search.wf(),
            search_preserved(*old(search), *search),
            old(search).selectivity_lv == 0 && alpha < beta ==> (best_reply_value(
                *board,
                legal_moves,
            ) == (if done >= best_reply_value(*board, moves) {
                done
            } else {
                best_reply_value(*board, moves)
            }) && done <= best_score as int && (best_score > alpha ==> done == best_score as int)
                && -127 <= done && (best_score < beta || best_score == -127)),
        decreases popcount(moves),
    {
        let (put_place, rest) = take_lowest_bit(moves);
        proof {
            crate::bit::lemma_pick_move(put_place, moves, legal_moves, board.occupied());
        }
        let mut current_board = *board;
        current_board.put_piece_fast(put_place);
        let ghost child_value: int = perfect_value(current_board);
        let ghost brv_moves: int = best_reply_value(*board, moves);
        let ghost brv_rest: int = best_reply_value(*board, rest);
        proof {
            if old(search).selectivity_lv == 0 && alpha < beta {
                assert(brv_moves == if -child_value >= brv_rest {
                    -child_value
                } else {
                    brv_rest
                });
            }
        }
        let score = 0 - negaalpha_perfect(&current_board, 0 - beta, 0 - cur_alpha, search);
        if score >= beta {
            proof {
                if old(search).selectivity_lv == 0 && alpha < beta {
                    assert(-child_value >= score as int);
                    crate::bit::lemma_and_idem(legal_moves);
                    lemma_best_reply_ge(*board, legal_moves, put_place);
                    assert(current_board == board.apply_move_spec(put_place));
                    assert(best_reply_value(*board, legal_moves) >= -child_value);
                    assert(perfect_value(*board) == best_reply_value(*board, legal_moves));
                    assert(perfect_value(*board) >= score as int);
                }
            }
            return score;
        }
        proof {
            if old(search).selectivity_lv == 0 && alpha < beta {
                let c: int = -child_value;
                if c > done {
                    done = c;
                }
            }
        }
        if score > cur_alpha {
            cur_alpha = score;
        }
        if score > best_score {
            best_score = score;
        }
        moves = rest;
    }

    proof {
        if old(search).selectivity_lv == 0 && alpha < beta {
            lemma_perfect_value_bounds(*board);
            assert(best_reply_value(*board, 0u64) == -127);
            assert(perfect_value(*board) == best_reply_value(*board, legal_moves));
        }
    }
    best_score
}

/// Null-window probe over exact endgame scores, without the
/// transposition table.
pub fn nws_perfect_simple(board: &Board, alpha: i32, search: &mut Search) -> (r: i32)
    requires
        board.wf(),
        4 <= popcount(board.occupied()),
        -128 <= alpha,
        alpha <= 127,
        old(search).wf(),
    ensures
        search_preserved(*old(search), *final(search)),
        -SCORE_INF <= r,
        r <= SCORE_INF,
        terminal_spec(*board) ==> r == solve_score_spec(*board),
        old(search).selectivity_lv == 0 ==> crate::search::fail_soft(
            r as int,
            perfect_value(*board),
            alpha as int,
            alpha as int + 1,
        ),
    decreases empties_spec(*board), pass_rank(*board), 20int,
{
    search.perfect_search_node_count = count_up(search.perfect_search_node_count);
    let beta: i32 = alpha + 1;

    if board.empties_count() < SWITCH_EMPTIES_NEGA_ALPHA {
        return negaalpha_perfect(board, alpha, beta, search);
    }
    let legal_moves: u64 = board.put_able();

    if legal_moves == 0 {
        let mut passed = *board;
        passed.next_turn = 1 - passed.next_turn;
        if passed.put_able() == 0 {
            search.perfect_search_leaf_node_count = count_up(
                search.perfect_search_leaf_node_count,
            );
            return solve_score(board);
        }
        let passed_score = nws_perfect_simple(&passed, 0 - beta, search);
        proof {
            if old(search).selectivity_lv == 0 {
                assert(passed == board.passed());
                assert(perfect_value(*board) == -perfect_value(board.passed()));
            }
        }
        return 0 - passed_score;
    }

    proof {
        crate::search::lemma_room_left(board.occupied(), legal_moves);
    }
    match perfect_search_mpc(board, alpha, beta, search) {
        ProbCutResult::Cut(score) => {
            proof {
                if old(search).selectivity_lv == 0 {
                    lemma_perfect_value_bounds(*board);
                }
            }
            return score;
        },
        ProbCutResult::FAIL => {},
    }

    let put_boards: Vec<PutBoard> = move_ordering_ffs(board, legal_moves, search);

    let mut best_score: i32 = 0 - SCORE_INF;
    let mut cur_alpha = alpha;
    let mut i: usize = 0;
    while i < put_boards.len()
        invariant
            board.wf(),
            4 <= popcount(board.occupied()),
            legal_spec(board.player(), board.opponent()) != 0,
            legal_moves == legal_spec(board.player(), board.opponent()),
            popcount(board.occupied()) < 64,
            -128 <= cur_alpha,
            cur_alpha <= 127,
            -128 <= alpha,
            alpha <= 127,
            beta == alpha + 1,
            -SCORE_INF <= best_score,
            best_score <= SCORE_INF,
            search.wf(),
            search_preserved(*old(search), *search),
            forall|j: int|
                0 <= j < put_boards@.len() ==> child_of(*board, legal_moves, #[trigger] put_boards@[j]),
            forall|j: u64|
                j < 64 && #[trigger] crate::bit::bit64(legal_moves, j) ==> exists|k: int|
                    0 <= k < put_boards@.len() && (#[trigger] put_boards@[k]).put_place == j,
            i == 0 ==> best_score == 0 - SCORE_INF,
            old(search).selectivity_lv == 0 ==> (forall|j: int|
                0 <= j < i ==> -perfect_value((#[trigger] put_boards@[j]).board)
                    <= best_score as int),
            old(search).selectivity_lv == 0 ==> (i > 0 ==> best_score <= alpha),
        decreases put_boards@.len() - i,
    {
        proof {
            assert(child_of(*board, legal_moves, put_boards@[i as int]));
        }
        let current = put_boards[i].board;
        let score = 0 - nws_perfect_simple(&current, 0 - beta, search);
        if score >= beta {
            proof {
                if old(search).selectivity_lv == 0 {
                    crate::search::lemma_child_move(*board, legal_moves, put_boards@[i as int]);
                    crate::bit::lemma_and_idem(legal_moves);
                    lemma_best_reply_ge(
                        *board,
                        legal_moves,
                        1u64 << put_boards@[i as int].put_place,
                    );
                    assert(perfect_value(*board) == best_reply_value(*board, legal_moves));
                }
            }
            return score;
        }
        if score > cur_alpha {
            cur_alpha = score;
        }
        if score > best_score {
            best_score = score;
        }
        i += 1;
    }

    proof {
        if old(search).selectivity_lv == 0 {
            lemma_popcount_pos(legal_moves);
            assert forall|j: u64| j < 64 && #[trigger] crate::bit::bit64(legal_moves, j) implies
                -perfect_value(board.apply_move_spec(1u64 << j)) <= best_score as int by {
                let k = choose|k: int|
                    0 <= k < put_boards@.len() && (#[trigger] put_boards@[k]).put_place == j;
                assert(child_of(*board, legal_moves, put_boards@[k]));
                assert((1u64 << j) == (1u64 << put_boards@[k].put_place));
                assert(-perfect_value(put_boards@[k].board) <= best_score as int);
            }
            crate::bit::lemma_and_idem(legal_moves);
            lemma_best_reply_le(*board, legal_moves, best_score as int);
            assert(perfect_value(*board) == best_reply_value(*board, legal_moves));
        }
    }
    best_score
}

/// Principal-variation search over exact endgame scores, without the
/// transposition table: used near the end where table upkeep costs more
/// than it saves.
pub fn pvs_perfect_simple(board: &Board, alpha: i32, beta: i32, search: &mut Search) -> (r: i32)
    requires
        board.wf(),
        4 <= popcount(board.occupied()),
        -127 <= alpha,
        alpha <= beta,
        beta <= 127,
        old(search).wf(),
    ensures
        search_preserved(*old(search), *final(search)),
        -SCORE_INF <= r,
        r <= SCORE_INF,
        terminal_spec(*board) ==> r == solve_score_spec(*board),
        old(search).selectivity_lv == 0 && empties_spec(*board) < SWITCH_EMPTIES_NEGA_ALPHA
            && alpha < beta ==> crate::search::fail_soft(
            r as int,
            perfect_value(*board),
            alpha as int,
            beta as int,
        ),
    decreases empties_spec(*board), pass_rank(*board), 30int,
{
    if board.empties_count() < SWITCH_EMPTIES_NEGA_ALPHA {
        return negaalpha_perfect(board, alpha, beta, search);
    }
    search.perfect_search_node_count = count_up(search.perfect_search_node_count);

    let legal_moves: u64 = board.put_able();

    if legal_moves == 0 {
        let mut passed = *board;
        passed.next_turn = 1 - passed.next_turn;
        if passed.put_able() == 0 {
            search.perfect_search_leaf_node_count = count_up(
                search.perfect_search_leaf_node_count,
            );
            return solve_score(board);
        }
        return 0 - pvs_perfect_simple(&passed, 0 - beta, 0 - alpha, search);
    }

    proof {
        crate::search::lemma_room_left(board.occupied(), legal_moves);
    }
    match perfect_search_mpc(board, alpha, beta, search) {
        ProbCutResult::Cut(score) => { return score },
        ProbCutResult::FAIL => {},
    }

    let put_boards: Vec<PutBoard> = move_ordering_ffs(board, legal_moves, search);
    proof {
        lemma_popcount_pos(legal_moves);
        assert(child_of(*board, legal_moves, put_boards@[0]));
    }

    let mut this_node_alpha: i32 = alpha;

    let first_child = put_boards[0];
    let mut best_score = 0 - pvs_perfect_simple(&first_child.board, 0 - beta, 0 - this_node_alpha,
        search);
    if best_score >= beta {
        return best_score;
    }
    if best_score > this_node_alpha {
        this_node_alpha = best_score;
    }

    let mut i: usize = 1;
    while i < put_boards.len()
        invariant
            board.wf(),
            4 <= popcount(board.occupied()),
            legal_spec(board.player(), board.opponent()) != 0,
            popcount(board.occupied()) < 64,
            -127 <= alpha,
            alpha <= beta,
            beta <= 127,
            SWITCH_EMPTIES_NEGA_ALPHA <= empties_spec(*board),
            -SCORE_INF <= best_score,
            best_score <= SCORE_INF,
            alpha <= this_node_alpha,
            this_node_alpha <= beta,
            this_node_alpha <= 127,
            search.wf(),
            search_preserved(*old(search), *search),
            forall|j: int|
                0 <= j < put_boards@.len() ==> child_of(*board, legal_moves, #[trigger] put_boards@[j]),
        decreases put_boards@.len() - i,
    {
        proof {
            assert(child_of(*board, legal_moves, put_boards@[i as int]));
        }
        let current = put_boards[i].board;
        let mut score = 0 - nws_perfect_simple(&current, 0 - this_node_alpha - 1, search);
        if score >= beta {
            return score;
        }
        if best_score < score {
            score = 0 - pvs_perfect_simple(&current, 0 - beta, 0 - this_node_alpha, search);
            if beta <= score {
                return score;
            }
            if best_score > this_node_alpha {
                this_node_alpha = best_score;
            }
            best_score = score;
        }
        if score > this_node_alpha {
            this_node_alpha = score;
        }
        i += 1;
    }

    best_score
}

/// Null-window probe over exact endgame scores, consulting the
/// transposition table at depth 60.
pub fn nws_perfect(board: &Board, alpha: i32, search: &mut Search) -> (r: i32)
    requires
        board.wf(),
        4 <= popcount(board.occupied()),
        -128 <= alpha,
        alpha <= 127,
        old(search).wf(),
    ensures
        search_preserved(*old(search), *final(search)),
        -SCORE_INF <= r,
        r <= SCORE_INF,
        terminal_spec(*board) ==> r == solve_score_spec(*board),
        old(search).selectivity_lv == 0 && empties_spec(*board) < SWITCH_EMPTIES_SIMPLE_NWS
            ==> crate::search::fail_soft(
            r as int,
            perfect_value(*board),
            alpha as int,
            alpha as int + 1,
        ),
    decreases empties_spec(*board), pass_rank(*board), 40int,
{
    let mut alpha = alpha;
    let mut beta = alpha + 1;

    let n_empties: i32 = board.empties_count();
    if n_empties < SWITCH_EMPTIES_SIMPLE_NWS {
        return nws_perfect_simple(board, alpha, search);
    }
    search.perfect_search_node_count = count_up(search.perfect_search_node_count);

    let legal_moves: u64 = board.put_able();

    if legal_moves == 0 {
        if board.opponent_put_able() == 0 {
            search.perfect_search_leaf_node_count = count_up(
                search.perfect_search_leaf_node_count,
            );
            return solve_score(board);
        }
        let mut passed = *board;
        passed.next_turn = 1 - passed.next_turn;
        return 0 - nws_perfect(&passed, 0 - beta, search);
    }

    proof {
        crate::search::lemma_room_left(board.occupied(), legal_moves);
    }
    if let Some(score) = t_table_cut_off(
        board,
        &mut alpha,
        &mut beta,
        60,
        search.selectivity_lv,
        &search.t_table,
    ) {
        return score;
    }

    proof {
        crate::search::lemma_room_left(board.occupied(), legal_moves);
    }
    match perfect_search_mpc(board, alpha, beta, search) {
        ProbCutResult::Cut(score) => { return score },
        ProbCutResult::FAIL => {},
    }

    let put_boards: Vec<PutBoard> = if n_empties > SWITCH_EMPTIES_MOVE_ORDER {
        let delta = search.origin_board.empties_count() - n_empties;
        let mut mo_lv = 8 - 2 * delta;
        let t = move_ordering_eval_level(n_empties);
        if mo_lv < t {
            mo_lv = t;
        }
        if mo_lv > 8 {
            mo_lv = 8;
        }
        move_ordering_eval(board, legal_moves, mo_lv, search)
    } else {
        move_ordering_ffs(board, legal_moves, search)
    };

    let mut best_move: u8 = NO_COORD;
    let mut this_node_alpha: i32 = alpha;
    let mut best_score: i32 = 0 - SCORE_INF;
    let mut i: usize = 0;
    while i < put_boards.len()
        invariant
            board.wf(),
            4 <= popcount(board.occupied()),
            legal_spec(board.player(), board.opponent()) != 0,
            popcount(board.occupied()) < 64,
            -128 <= alpha,
            alpha <= 127,
            -127 <= beta,
            beta <= 128,
            SWITCH_EMPTIES_SIMPLE_NWS <= empties_spec(*board),
            alpha <= this_node_alpha,
            this_node_alpha <= 127,
            -SCORE_INF <= best_score,
            best_score <= SCORE_INF,
            search.wf(),
            search_preserved(*old(search), *search),
            forall|j: int|
                0 <= j < put_boards@.len() ==> child_of(*board, legal_moves, #[trigger] put_boards@[j]),
        decreases put_boards@.len() - i,
    {
        proof {
            assert(child_of(*board, legal_moves, put_boards@[i as int]));
        }
        let put = put_boards[i];
        let score = 0 - nws_perfect(&put.board, 0 - beta, search);
        if score >= beta {
            search.t_table.add(board, score, SCORE_INF, 60, search.selectivity_lv, put.put_place);
            return score;
        }
        if score > this_node_alpha {
            this_node_alpha = score;
        }
        if score > best_score {
            best_score = score;
            best_move = put.put_place;
        }
        i += 1;
    }

    if best_score > alpha {
        search.t_table.add(board, best_score, best_score, 60, search.selectivity_lv, best_move);
    } else {
        search.t_table.add(
            board,
            0 - SCORE_INF,
            best_score,
            60,
            search.selectivity_lv,
            best_move,
        );
    }

    best_score
}

/// Ordering effort of the evaluated move ordering at each empties count.
pub fn move_ordering_eval_level(n_empties: i32) -> (r: i32)
    requires
        0 <= n_empties,
        n_empties <= 64,
    ensures
        1 <= r,
        r <= 4,
{
    if n_empties <= 12 {
        1
    } else if n_empties <= 22 {
        2
    } else if n_empties <= 38 {
        3
    } else {
        4
    }
}

/// Principal-variation search over exact endgame scores with the
/// transposition table: the main endgame driver.
pub fn pvs_perfect(board: &Board, alpha: i32, beta: i32, search: &mut Search) -> (r: i32)
    requires
        board.wf(),
        4 <= popcount(board.occupied()),
        -127 <= alpha,
        alpha <= beta,
        beta <= 127,
        old(search).wf(),
    ensures
        search_preserved(*old(search), *final(search)),
        -SCORE_INF <= r,
        r <= SCORE_INF,
        terminal_spec(*board) ==> r == solve_score_spec(*board),
        old(search).selectivity_lv == 0 && empties_spec(*board) < SWITCH_EMPTIES_NEGA_ALPHA
            && alpha < beta ==> crate::search::fail_soft(
            r as int,
            perfect_value(*board),
            alpha as int,
            beta as int,
        ),
    decreases empties_spec(*board), pass_rank(*board), 50int,
{
    let mut alpha = alpha;
    let mut beta = beta;
    let n_empties = board.empties_count();
    if n_empties < SWITCH_EMPTIES_SIMPLE_PVS {
        return pvs_perfect_simple(board, alpha, beta, search);
    }
    search.perfect_search_node_count = count_up(search.perfect_search_node_count);

    let legal_moves: u64 = board.put_able();

    if legal_moves == 0 {
        if board.opponent_put_able() == 0 {
            search.perfect_search_leaf_node_count = count_up(
                search.perfect_search_leaf_node_count,
            );
            return solve_score(board);
        }
        let mut passed = *board;
        passed.next_turn = 1 - passed.next_turn;
        return 0 - pvs_perfect(&passed, 0 - beta, 0 - alpha, search);
    }

    proof {
        crate::search::lemma_room_left(board.occupied(), legal_moves);
    }
    if let Some(score) = t_table_cut_off(
        board,
        &mut alpha,
        &mut beta,
        60,
        search.selectivity_lv,
        &search.t_table,
    ) {
        return score;
    }

    proof {
        crate::search::lemma_room_left(board.occupied(), legal_moves);
    }
    match perfect_search_mpc(board, alpha, beta, search) {
        ProbCutResult::Cut(score) => { return score },
        ProbCutResult::FAIL => {},
    }

    let put_boards: Vec<PutBoard> = if n_empties > SWITCH_EMPTIES_MOVE_ORDER {
        let delta = search.origin_board.empties_count() - n_empties;
        let mut mo_lv = 8 - 2 * delta;
        let t = move_ordering_eval_level(n_empties);
        if mo_lv < t {
            mo_lv = t;
        }
        if mo_lv > 8 {
            mo_lv = 8;
        }
        move_ordering_eval(board, legal_moves, mo_lv, search)
    } else {
        move_ordering_ffs(board, legal_moves, search)
    };
    proof {
        lemma_popcount_pos(legal_moves);
        assert(child_of(*board, legal_moves, put_boards@[0]));
    }

    let mut this_node_alpha = alpha;

    let first_child = put_boards[0];
    let mut best_move: u8 = first_child.put_place;
    let mut best_score: i32 = 0 - pvs_perfect(&first_child.board, 0 - beta, 0 - this_node_alpha,
        search);
    if best_score >= beta {
        search.t_table.add(board, best_score, SCORE_INF, 60, search.selectivity_lv, best_move);
        return best_score;
    }
    if best_score > this_node_alpha {
        this_node_alpha = best_score;
    }

    let mut i: usize = 1;
    while i < put_boards.len()
        invariant
            board.wf(),
            4 <= popcount(board.occupied()),
            legal_spec(board.player(), board.opponent()) != 0,
            popcount(board.occupied()) < 64,
            -127 <= alpha,
            alpha <= 127,
            -127 <= beta,
            beta <= 127,
            alpha <= beta,
            SWITCH_EMPTIES_SIMPLE_PVS <= empties_spec(*board),
            -SCORE_INF <= best_score,
            best_score <= SCORE_INF,
            alpha <= this_node_alpha,
            this_node_alpha <= beta,
            this_node_alpha <= 127,
            search.wf(),
            search_preserved(*old(search), *search),
            forall|j: int|
                0 <= j < put_boards@.len() ==> child_of(*board, legal_moves, #[trigger] put_boards@[j]),
        decreases put_boards@.len() - i,
    {
        proof {
            assert(child_of(*board, legal_moves, put_boards@[i as int]));
        }
        let put = put_boards[i];
        let mut score = 0 - nws_perfect(&put.board, 0 - this_node_alpha - 1, search);
        if score >= beta {
            search.t_table.add(
                board,
                score,
                SCORE_INF,
                60,
                search.selectivity_lv,
                first_child.put_place,
            );
            return score;
        }
        if score > best_score {
            score = 0 - pvs_perfect(&put.board, 0 - beta, 0 - this_node_alpha, search);
            if score >= beta {
                search.t_table.add(board, score, SCORE_INF, 60, search.selectivity_lv, best_move);
                return score;
            }
            if score > best_score {
                if score > this_node_alpha {
                    this_node_alpha = score;
                }
                best_move = put.put_place;
                best_score = score;
            }
        }
        if score > this_node_alpha {
            this_node_alpha = score;
        }
        i += 1;
    }

    if best_score > alpha {
        search.t_table.add(board, best_score, best_score, 60, search.selectivity_lv, best_move);
    } else {
        search.t_table.add(
            board,
            0 - SCORE_INF,
            best_score,
            60,
            search.selectivity_lv,
            best_move,
        );
    }

    best_score
}

} // verus!
