//! Search-family agreement: plain alpha-beta, negascout with and without
//! the transposition table, and probcut at selectivity zero must agree
//! with a brute-force negamax on small endgames.

use othello::board::Board;
use othello::eval::Evaluator;
use othello::perfect_search::{
    negaalpha_perfect, nws_perfect, pvs_perfect, pvs_perfect_simple, solve_score,
};
use othello::search::Search;
use othello::t_table::TranspositionTable;

/// Reference full-tree negamax over exact endgame scores.
fn brute_force(board: &Board, passed: bool) -> i32 {
    let legal = board.put_able();
    if legal == 0 {
        if passed || board.opponent_put_able() == 0 {
            return solve_score(board);
        }
        let mut p = *board;
        p.next_turn = 1 - p.next_turn;
        return -brute_force(&p, true);
    }
    let mut best = -127;
    let mut moves = legal;
    while moves != 0 {
        let mv = moves & moves.wrapping_neg();
        moves &= moves - 1;
        let mut child = *board;
        child.put_piece_fast(mv);
        let s = -brute_force(&child, false);
        if s > best {
            best = s;
        }
    }
    best
}

/// Plays the lowest-bit legal move (passing when needed) until at most
/// `target` empties remain, from a fixed opening, giving a deterministic
/// test position.
fn position_with_empties(target: i32) -> Board {
    let mut b = Board::new();
    loop {
        if b.empties_count() <= target {
            return b;
        }
        let legal = b.put_able();
        if legal == 0 {
            if b.opponent_put_able() == 0 {
                return b;
            }
            b.next_turn = 1 - b.next_turn;
            continue;
        }
        // prefer an inner square to keep the game going
        let mv = legal & legal.wrapping_neg();
        b.put_piece_fast(mv);
    }
}

fn fresh_search(board: &Board, selectivity_lv: i32) -> Search {
    Search::new(
        board,
        selectivity_lv,
        TranspositionTable::new(),
        Evaluator::new(),
    )
}

#[test]
fn exact_variants_agree_with_brute_force() {
    let b = position_with_empties(7);
    let reference = brute_force(&b, false);

    let mut s1 = fresh_search(&b, 0);
    let v1 = negaalpha_perfect(&b, -127, 127, &mut s1);
    assert_eq!(v1, reference);

    let mut s2 = fresh_search(&b, 0);
    let v2 = pvs_perfect_simple(&b, -127, 127, &mut s2);
    assert_eq!(v2, reference);

    let mut s3 = fresh_search(&b, 0);
    let v3 = pvs_perfect(&b, -127, 127, &mut s3);
    assert_eq!(v3, reference);
}

#[test]
fn table_assisted_and_plain_search_return_the_same_score() {
    let b = position_with_empties(8);
    let mut plain = fresh_search(&b, 0);
    let v_plain = pvs_perfect_simple(&b, -127, 127, &mut plain);

    let mut assisted = fresh_search(&b, 0);
    let v_assisted = pvs_perfect(&b, -127, 127, &mut assisted);
    assert_eq!(v_plain, v_assisted);

    // a second query of the warmed table must agree as well
    let v_again = pvs_perfect(&b, -127, 127, &mut assisted);
    assert_eq!(v_again, v_plain);
}

#[test]
fn null_window_probe_brackets_the_true_score() {
    let b = position_with_empties(7);
    let truth = brute_force(&b, false);
    let mut s = fresh_search(&b, 0);
    // probe below the true score fails high, at or above it fails low
    let below = nws_perfect(&b, truth - 1, &mut s);
    assert!(below >= truth);
    let mut s2 = fresh_search(&b, 0);
    let at = nws_perfect(&b, truth, &mut s2);
    assert!(at <= truth);
}

#[test]
fn selectivity_zero_never_fires_a_probabilistic_cut() {
    // identical scores with probcut structurally disabled and enabled-at-zero
    let b = position_with_empties(8);
    let mut s0 = fresh_search(&b, 0);
    let v0 = negaalpha_perfect(&b, -127, 127, &mut s0);
    let reference = brute_force(&b, false);
    assert_eq!(v0, reference);
}

#[test]
fn terminal_positions_score_by_disc_differential_in_search() {
    let full = Board { bit_board: [0xFFFFFFFFFFFFFF00u64, 0x00000000000000FFu64], next_turn: 0 };
    let mut s = fresh_search(&full, 0);
    let v = negaalpha_perfect(&full, -127, 127, &mut s);
    assert_eq!(v, 48);
    let mut s2 = fresh_search(&full, 0);
    let v2 = pvs_perfect(&full, -127, 127, &mut s2);
    assert_eq!(v2, 48);
}
