//! Probcut model tables and fits: selectivity z-values, the endgame
//! model table, the fitted mid-game coefficients, and the guarantee that
//! selectivity zero never cuts inside the score range.

use othello::board::Board;
use othello::eval::Evaluator;
use othello::mpc::{
    eval_search_mpc, gen_eval_search_mpc_params, perfect_mpc_params, selectivity, ProbCutResult,
};
use othello::search::Search;
use othello::t_table::TranspositionTable;

#[test]
fn selectivity_levels_carry_their_z_values() {
    assert_eq!(selectivity(0).value_micro, 0);
    assert_eq!(selectivity(0).percent, 100);
    assert_eq!(selectivity(1).value_micro, 2_576_000);
    assert_eq!(selectivity(1).percent, 99);
    assert_eq!(selectivity(3).value_micro, 1_960_000);
    assert_eq!(selectivity(6).value_micro, 0);
    assert_eq!(selectivity(6).percent, 68);
}

#[test]
fn endgame_models_exist_from_five_empties_up() {
    assert!(perfect_mpc_params(0).is_none());
    assert!(perfect_mpc_params(4).is_none());
    let p5 = perfect_mpc_params(5).unwrap();
    assert_eq!(p5.lv, 0);
    assert_eq!(p5.a_micro, 1_007_404);
    let p20 = perfect_mpc_params(20).unwrap();
    assert_eq!(p20.lv, 6);
    assert_eq!(p20.a_micro, 1_036_872);
    // beyond the measured range the twenty-empties fits are reused
    let p21 = perfect_mpc_params(21).unwrap();
    assert_eq!(p21.lv, 5);
    assert_eq!(p21.a_micro, 1_031_665);
    let p30 = perfect_mpc_params(30).unwrap();
    assert_eq!(p30.lv, 8);
    // the probe is always shallower than the position is deep
    for n in 0..=60 {
        if let Some(p) = perfect_mpc_params(n) {
            assert!(p.lv < n);
        }
    }
}

#[test]
fn midgame_fit_follows_the_regression() {
    let p = gen_eval_search_mpc_params(10, 20);
    assert_eq!(p.lv, 4);
    assert_eq!(p.a_micro, 997_868 - 399 * 20 - 590 * 10 + 3_595 * 4);
    assert_eq!(p.b_micro, -345_286 - 993 * 20 - 97_065 * 10 + 264_205 * 4);
    assert_eq!(p.e_std_micro, 3_887_029 - 43_874 * 20 + 323_397 * 10 - 609_174 * 4);
}

#[test]
fn selectivity_zero_cut_attempt_always_fails_inside_the_window() {
    let b = Board::new();
    let mut s = Search::new(&b, 0, TranspositionTable::new(), Evaluator::new());
    let r = eval_search_mpc(&b, -64, 63, 10, &mut s);
    assert!(matches!(r, ProbCutResult::FAIL));
    // a window already past the score range is answered by its own edge
    let r2 = eval_search_mpc(&b, 64, 127, 10, &mut s);
    assert!(matches!(r2, ProbCutResult::Cut(64)));
}
