//! Multi-probability cut: before fully expanding a node, a much shallower
//! null-window probe estimates the true score through a fitted linear
//! model with a known residual spread; when the estimate clears the
//! window by the chosen confidence margin, the node is cut. At
//! selectivity level zero no probabilistic cut ever fires. The fitted
//! coefficients are carried in fixed point, millionths of a stone.

use crate::bit::popcount;
use crate::board::Board;
use crate::eval_search::nws_eval;
use crate::search::empties_spec;
use crate::search::lv_rank;
use crate::search::search_preserved;
use crate::search::Search;
use crate::search::SCORE_INF;
use vstd::prelude::*;

verus! {

/// Largest meaningful score: one side owning the whole board.
pub const SCORE_MAX: i32 = 64;

/// Selectivity level meaning "no probabilistic cuts".
pub const NO_MPC: i32 = 0;

/// Highest selectivity level.
pub const SELECTIVITY_LV_MAX: i32 = 6;

/// Outcome of a probe: a statistically backed cutoff score, or no cut.
pub enum ProbCutResult {
    Cut(i32),
    FAIL,
}

/// One selectivity level: its confidence z-value in millionths, and the
/// confidence percentage it stands for.
pub struct Selectivity {
    pub value_micro: i64,
    pub percent: i32,
}

/// The z-value of a selectivity level, in millionths.
pub open spec fn selectivity_z_spec(lv: int) -> int {
    if lv == 0 {
        0
    } else if lv == 1 {
        2_576_000
    } else if lv == 2 {
        2_326_000
    } else if lv == 3 {
        1_960_000
    } else if lv == 4 {
        1_439_530
    } else if lv == 5 {
        1_200_000
    } else {
        0
    }
}

/// The confidence percentage a selectivity level stands for.
pub open spec fn selectivity_percent_spec(lv: int) -> int {
    if lv == 0 {
        100
    } else if lv == 1 {
        99
    } else if lv == 2 {
        98
    } else if lv == 3 {
        95
    } else if lv == 4 {
        85
    } else if lv == 5 {
        77
    } else {
        68
    }
}

/// The z-value and confidence of a selectivity level, from fully exact
/// (level 0) down to a 68% confidence margin (level 6).
pub fn selectivity(lv: i32) -> (r: Selectivity)
    requires
        0 <= lv,
        lv <= 6,
    ensures
        r.value_micro == selectivity_z_spec(lv as int),
        r.percent == selectivity_percent_spec(lv as int),
        0 <= r.value_micro,
        r.value_micro <= 2_576_000,
        lv == 0 ==> r.value_micro == 0,
{
    if lv == 0 {
        Selectivity { value_micro: 0, percent: 100 }
    } else if lv == 1 {
        Selectivity { value_micro: 2_576_000, percent: 99 }
    } else if lv == 2 {
        Selectivity { value_micro: 2_326_000, percent: 98 }
    } else if lv == 3 {
        Selectivity { value_micro: 1_960_000, percent: 95 }
    } else if lv == 4 {
        Selectivity { value_micro: 1_439_530, percent: 85 }
    } else if lv == 5 {
        Selectivity { value_micro: 1_200_000, percent: 77 }
    } else {
        Selectivity { value_micro: 0, percent: 68 }
    }
}

/// The fitted cut model for one node: probe depth, slope, intercept and
/// residual spread, the latter three in millionths.
pub struct MpcParams {
    pub lv: i32,
    pub a_micro: i64,
    pub b_micro: i64,
    pub e_std_micro: i64,
}

impl MpcParams {
    /// Coefficients in the ranges the fits produce: slope near one,
    /// intercept and spread a few stones.
    pub open spec fn wf(self) -> bool {
        0 <= self.lv && 900_000 <= self.a_micro && self.a_micro <= 1_100_000 && -10_000_000
            <= self.b_micro && self.b_micro <= 10_000_000 && 0 <= self.e_std_micro
            && self.e_std_micro <= 30_000_000
    }
}

/// The fitted model for an exact endgame node with `n_empties` empty
/// squares, where one exists: none below five empties, measured fits up
/// to twenty, and the twenty-square fits reused beyond.
pub fn perfect_mpc_params(n_empties: i32) -> (r: Option<MpcParams>)
    requires
        0 <= n_empties,
        n_empties <= 60,
    ensures
        r matches Some(p) ==> p.wf() && 0 <= p.lv < n_empties,
{
    if n_empties < 5 {
        None
    } else if n_empties == 5 {
        Some(MpcParams { lv: 0, a_micro: 1007404, b_micro: 111779, e_std_micro: 5023305 })
    } else if n_empties == 6 {
        Some(MpcParams { lv: 0, a_micro: 1011217, b_micro: -142537, e_std_micro: 5297557 })
    } else if n_empties == 7 {
        Some(MpcParams { lv: 1, a_micro: 1005572, b_micro: -1126907, e_std_micro: 5254802 })
    } else if n_empties == 8 {
        Some(MpcParams { lv: 2, a_micro: 1006228, b_micro: -14437, e_std_micro: 4941725 })
    } else if n_empties == 9 {
        Some(MpcParams { lv: 1, a_micro: 1006576, b_micro: -1682073, e_std_micro: 5725485 })
    } else if n_empties == 10 {
        Some(MpcParams { lv: 2, a_micro: 1009784, b_micro: 290682, e_std_micro: 5396172 })
    } else if n_empties == 11 {
        Some(MpcParams { lv: 3, a_micro: 1009319, b_micro: -1614533, e_std_micro: 5227063 })
    } else if n_empties == 12 {
        Some(MpcParams { lv: 4, a_micro: 1012453, b_micro: 489317, e_std_micro: 4914870 })
    } else if n_empties == 13 {
        Some(MpcParams { lv: 3, a_micro: 1013374, b_micro: -1754317, e_std_micro: 5389238 })
    } else if n_empties == 14 {
        Some(MpcParams { lv: 4, a_micro: 1013996, b_micro: 448043, e_std_micro: 5086939 })
    } else if n_empties == 15 {
        Some(MpcParams { lv: 3, a_micro: 1019610, b_micro: -1812758, e_std_micro: 5446379 })
    } else if n_empties == 16 {
        Some(MpcParams { lv: 4, a_micro: 1024041, b_micro: 495222, e_std_micro: 5084019 })
    } else if n_empties == 17 {
        Some(MpcParams { lv: 5, a_micro: 1025313, b_micro: -1659412, e_std_micro: 4817367 })
    } else if n_empties == 18 {
        Some(MpcParams { lv: 6, a_micro: 1028138, b_micro: 732722, e_std_micro: 4589407 })
    } else if n_empties == 19 {
        Some(MpcParams { lv: 5, a_micro: 1031665, b_micro: -1822937, e_std_micro: 4810056 })
    } else if n_empties == 20 {
        Some(MpcParams { lv: 6, a_micro: 1036872, b_micro: 896318, e_std_micro: 4575580 })
    } else if n_empties <= 28 {
        if n_empties % 2 == 1 {
            Some(MpcParams { lv: 5, a_micro: 1031665, b_micro: -1822937, e_std_micro: 4810056 })
        } else {
            Some(MpcParams { lv: 6, a_micro: 1036872, b_micro: 896318, e_std_micro: 4575580 })
        }
    } else {
        if n_empties % 2 == 1 {
            Some(MpcParams { lv: 7, a_micro: 1031665, b_micro: -1822937, e_std_micro: 4810056 })
        } else {
            Some(MpcParams { lv: 8, a_micro: 1036872, b_micro: 896318, e_std_micro: 4575580 })
        }
    }
}

/// Probe depth of the heuristic-search cut model at each search depth.
pub fn eval_mpc_probe_lv(lv: i32) -> (r: i32)
    requires
        5 <= lv,
        lv <= 60,
    ensures
        1 <= r < lv,
        r <= 10,
{
    if lv == 5 {
        1
    } else if lv == 6 {
        2
    } else if lv == 7 {
        1
    } else if lv == 8 {
        2
    } else if lv == 9 {
        3
    } else if lv == 10 {
        4
    } else if lv <= 14 {
        if lv % 2 == 1 {
            3
        } else {
            4
        }
    } else if lv <= 23 {
        if lv % 2 == 1 {
            5
        } else {
            6
        }
    } else if lv <= 39 {
        if lv % 2 == 0 {
            7
        } else {
            8
        }
    } else {
        if lv % 2 == 0 {
            9
        } else {
            10
        }
    }
}

/// A value held inside an inclusive range.
pub open spec fn clamp_spec(v: int, lo: int, hi: int) -> int {
    if v < lo {
        lo
    } else if v > hi {
        hi
    } else {
        v
    }
}

/// The fitted slope of the heuristic cut model, in millionths.
pub open spec fn fit_a_spec(n: int, l: int, m: int) -> int {
    clamp_spec(997_868 - 399 * n - 590 * l + 3_595 * m, 900_000, 1_100_000)
}

/// The fitted intercept of the heuristic cut model, in millionths.
pub open spec fn fit_b_spec(n: int, l: int, m: int) -> int {
    clamp_spec(-345_286 - 993 * n - 97_065 * l + 264_205 * m, -10_000_000, 10_000_000)
}

/// The fitted residual spread of the heuristic cut model, in millionths.
pub open spec fn fit_e_spec(n: int, l: int, m: int) -> int {
    clamp_spec(3_887_029 - 43_874 * n + 323_397 * l - 609_174 * m, 0, 30_000_000)
}

/// The fitted heuristic-search cut model for depth `lv` with `n_empties`
/// empty squares: a linear regression over depth, probe depth and
/// empties, clamped into the coefficient ranges the fits respect.
pub fn gen_eval_search_mpc_params(lv: i32, n_empties: i32) -> (r: MpcParams)
    requires
        5 <= lv,
        lv <= 60,
        0 <= n_empties,
        n_empties <= 64,
    ensures
        r.wf(),
        1 <= r.lv < lv,
        r.lv <= 10,
        ({
            let n = n_empties as int;
            let l = lv as int;
            let m = r.lv as int;
            r.a_micro == fit_a_spec(n, l, m) && r.b_micro == fit_b_spec(n, l, m) && r.e_std_micro
                == fit_e_spec(n, l, m)
        }),
{
    let mpc_lv = eval_mpc_probe_lv(lv);
    let n = n_empties as i64;
    let l = lv as i64;
    let m = mpc_lv as i64;

    let mut a: i64 = 997_868 - 399 * n - 590 * l + 3_595 * m;
    let mut b: i64 = -345_286 - 993 * n - 97_065 * l + 264_205 * m;
    let mut e_std: i64 = 3_887_029 - 43_874 * n + 323_397 * l - 609_174 * m;

    if a < 900_000 {
        a = 900_000;
    }
    if a > 1_100_000 {
        a = 1_100_000;
    }
    if b < -10_000_000 {
        b = -10_000_000;
    }
    if b > 10_000_000 {
        b = 10_000_000;
    }
    if e_std < 0 {
        e_std = 0;
    }
    if e_std > 30_000_000 {
        e_std = 30_000_000;
    }

    MpcParams { lv: mpc_lv, a_micro: a, b_micro: b, e_std_micro: e_std }
}

/// Floor division by a positive divisor, for the fixed-point cut bounds.
fn div_floor_by(n: i64, d: i64) -> (r: i64)
    requires
        900_000 <= d,
        d <= 1_100_000,
        -1_000_000_000 <= n,
        n <= 1_000_000_000,
    ensures
        r == n as int / d as int,
        -1_200 <= r,
        r <= 1_200,
{
    let shifted: i64 = n + 2_000 * d;
    let q: u64 = (shifted as u64) / (d as u64);
    proof {
        assert((n as int + 2_000 * (d as int)) / (d as int) == n as int / d as int + 2_000)
            by (nonlinear_arith)
            requires
                d as int >= 900_000,
        ;
        assert(n as int / d as int >= -1_200 && n as int / d as int <= 1_200) by (nonlinear_arith)
            requires
                900_000 <= d as int,
                d as int <= 1_100_000,
                -1_000_000_000 <= n as int,
                n as int <= 1_000_000_000,
        ;
    }
    (q as i64) - 2_000
}

/// Ceiling division by a positive divisor.
fn div_ceil_by(n: i64, d: i64) -> (r: i64)
    requires
        900_000 <= d,
        d <= 1_100_000,
        -1_000_000_000 <= n,
        n <= 1_000_000_000,
    ensures
        r == -((-(n as int)) / d as int),
        -1_200 <= r,
        r <= 1_200,
{
    0 - div_floor_by(0 - n, d)
}

/// Runs the two one-sided probes of the cut model against the window.
/// At selectivity level zero this never cuts except on a window already
/// outside the score range, where the window edge itself is the proof.
pub fn multi_prob_cut(board: &Board, alpha: i32, beta: i32, mpc_params: &MpcParams,
    search: &mut Search) -> (r: ProbCutResult)
    requires
        board.wf(),
        4 <= popcount(board.occupied()),
        -128 <= alpha,
        alpha <= beta,
        beta <= 128,
        alpha <= 127,
        -127 <= beta,
        beta <= 127 || alpha >= 64,
        alpha >= -127 || beta <= -64,
        mpc_params.wf(),
        mpc_params.lv <= 60,
        old(search).wf(),
    ensures
        search_preserved(*old(search), *final(search)),
        r matches ProbCutResult::Cut(s) ==> -SCORE_INF <= s && s <= SCORE_INF,
        old(search).selectivity_lv == 0 ==> (if alpha >= SCORE_MAX {
            r == ProbCutResult::Cut(alpha)
        } else if beta <= -SCORE_MAX {
            r == ProbCutResult::Cut(beta)
        } else {
            r is FAIL
        }),
        alpha >= SCORE_MAX ==> r == ProbCutResult::Cut(alpha),
        alpha < SCORE_MAX && beta <= -SCORE_MAX ==> r == ProbCutResult::Cut(beta),
    decreases lv_rank(mpc_params.lv as int), 3int, 0int,
{
    if alpha >= SCORE_MAX {
        return ProbCutResult::Cut(alpha);
    }
    if beta <= 0 - SCORE_MAX {
        return ProbCutResult::Cut(beta);
    }
    if search.selectivity_lv == NO_MPC {
        return ProbCutResult::FAIL;
    }
    let mpc_search_lv: i32 = mpc_params.lv;
    let z_micro: i64 = selectivity(search.selectivity_lv).value_micro;
    proof {
        assert(0 <= z_micro * mpc_params.e_std_micro && z_micro * mpc_params.e_std_micro
            <= 2_576_000 * 30_000_000int) by (nonlinear_arith)
            requires
                0 <= z_micro,
                z_micro <= 2_576_000,
                0 <= mpc_params.e_std_micro,
                mpc_params.e_std_micro <= 30_000_000,
        ;
    }
    let e_allow_micro: i64 = z_micro * mpc_params.e_std_micro / 1_000_000;

    let upper64 = div_ceil_by(
        (beta as i64) * 1_000_000 - mpc_params.b_micro + e_allow_micro,
        mpc_params.a_micro,
    );
    let upper: i32 = upper64 as i32;
    if upper < SCORE_MAX {
        if upper - 1 < 0 - SCORE_INF - 1 {
            return ProbCutResult::Cut(beta);
        }
        let v = nws_eval_0_selectivity_lv(board, upper - 1, mpc_search_lv, search);
        if v >= upper {
            return ProbCutResult::Cut(beta);
        }
    }
    let lower64 = div_floor_by(
        (alpha as i64) * 1_000_000 - mpc_params.b_micro - e_allow_micro,
        mpc_params.a_micro,
    );
    let lower: i32 = lower64 as i32;
    if lower > 0 - SCORE_MAX {
        if lower > SCORE_INF {
            return ProbCutResult::Cut(alpha);
        }
        let v = nws_eval_0_selectivity_lv(board, lower, mpc_search_lv, search);
        if v <= lower {
            return ProbCutResult::Cut(alpha);
        }
    }
    ProbCutResult::FAIL
}

/// The cut attempt of the heuristic search: below depth five no model is
/// fitted and no cut is tried.
pub fn eval_search_mpc(board: &Board, alpha: i32, beta: i32, lv: i32, search: &mut Search) -> (r:
    ProbCutResult)
    requires
        board.wf(),
        4 <= popcount(board.occupied()),
        -128 <= alpha,
        alpha <= beta,
        beta <= 128,
        alpha <= 127,
        -127 <= beta,
        beta <= 127 || alpha >= 64,
        alpha >= -127 || beta <= -64,
        lv <= 60,
        old(search).wf(),
    ensures
        search_preserved(*old(search), *final(search)),
        r matches ProbCutResult::Cut(s) ==> -SCORE_INF <= s && s <= SCORE_INF,
        old(search).selectivity_lv == 0 && lv >= 5 ==> (if alpha >= SCORE_MAX {
            r == ProbCutResult::Cut(alpha)
        } else if beta <= -SCORE_MAX {
            r == ProbCutResult::Cut(beta)
        } else {
            r is FAIL
        }),
        old(search).selectivity_lv == 0 && lv < 5 ==> r is FAIL,
    decreases lv_rank(lv as int), 0int, 1int,
{
    if lv < 5 {
        return ProbCutResult::FAIL;
    }
    let n_empties = board.empties_count();
    proof {
        crate::bit::lemma_popcount_le_64(board.occupied());
    }
    let mpc_params = gen_eval_search_mpc_params(lv, n_empties);

    multi_prob_cut(board, alpha, beta, &mpc_params, search)
}

/// The cut attempt of the exact endgame search: tried wherever a model
/// exists for the number of empty squares.
pub fn perfect_search_mpc(board: &Board, alpha: i32, beta: i32, search: &mut Search) -> (r:
    ProbCutResult)
    requires
        board.wf(),
        4 <= popcount(board.occupied()),
        -128 <= alpha,
        alpha <= beta,
        beta <= 128,
        alpha <= 127,
        -127 <= beta,
        beta <= 127 || alpha >= 64,
        alpha >= -127 || beta <= -64,
        old(search).wf(),
    ensures
        search_preserved(*old(search), *final(search)),
        r matches ProbCutResult::Cut(s) ==> -SCORE_INF <= s && s <= SCORE_INF,
        old(search).selectivity_lv == 0 ==> (r is FAIL || (alpha >= SCORE_MAX && r
            == ProbCutResult::Cut(alpha)) || (beta <= -SCORE_MAX && r == ProbCutResult::Cut(
            beta,
        ))),
    decreases empties_spec(*board), 0int, 1int,
{
    let n_empties = board.empties_count();
    proof {
        crate::bit::lemma_popcount_le_64(board.occupied());
    }
    let mpc_params = match perfect_mpc_params(n_empties) {
        Some(params) => params,
        None => { return ProbCutResult::FAIL },
    };
    multi_prob_cut(board, alpha, beta, &mpc_params, search)
}

/// The fully exact null-window probe behind the cut model: the same
/// null-window search, run with selectivity level zero and the caller's
/// level restored afterward.
pub fn nws_eval_0_selectivity_lv(board: &Board, alpha: i32, lv: i32, search: &mut Search) -> (r:
    i32)
    requires
        board.wf(),
        4 <= popcount(board.occupied()),
        -128 <= alpha,
        alpha <= 127,
        lv <= 60,
        old(search).wf(),
    ensures
        search_preserved(*old(search), *final(search)),
        -SCORE_INF <= r,
        r <= SCORE_INF,
        lv > 0 && crate::search::terminal_spec(*board) ==> r
            == crate::perfect_search::solve_score_spec(*board),
    decreases lv_rank(lv as int), 2int, 0int,
{
    let main_search_selectivity_lv = search.selectivity_lv;
    search.selectivity_lv = 0;
    let score = nws_eval(board, alpha, lv, search);
    search.selectivity_lv = main_search_selectivity_lv;
    score
}

} // verus!
