//! Root solver behavior: legal results, exact endgame scores against
//! brute force, and the win/draw/loss verdict.

use othello::board::Board;
use othello::eval::Evaluator;
use othello::perfect_search::solve_score;
use othello::search::Search;
use othello::solver::{eval_solver, perfect_solver, winning_solver, SolverErr};
use othello::t_table::TranspositionTable;

fn brute_force(board: &Board, passed: bool) -> i32 {
    let legal = board.put_able();
    if legal == 0 {
        if passed || board.opponent_put_able() == 0 {
            return solve_score(board);
        }
        let mut p = *board;
        p.next_turn = 1 - p.next_turn;
        return -brute_force(&p, true);
    }
    let mut best = -127;
    let mut moves = legal;
    while moves != 0 {
        let mv = moves & moves.wrapping_neg();
        moves &= moves - 1;
        let mut child = *board;
        child.put_piece_fast(mv);
        let s = -brute_force(&child, false);
        if s > best {
            best = s;
        }
    }
    best
}

fn position_with_empties(target: i32) -> Board {
    let mut b = Board::new();
    loop {
        if b.empties_count() <= target {
            return b;
        }
        let legal = b.put_able();
        if legal == 0 {
            if b.opponent_put_able() == 0 {
                return b;
            }
            b.next_turn = 1 - b.next_turn;
            continue;
        }
        let mv = legal & legal.wrapping_neg();
        b.put_piece_fast(mv);
    }
}

#[test]
fn perfect_solver_matches_brute_force_on_a_small_endgame() {
    let b = position_with_empties(7);
    if b.put_able() == 0 {
        return; // the fixed playout ended; nothing to solve at the root
    }
    let reference = brute_force(&b, false);
    let mut search = Search::new(&b, 0, TranspositionTable::new(), Evaluator::new());
    let res = perfect_solver(&b, 0, &mut search).ok().unwrap();
    assert_eq!(res.eval, reference);
    assert_eq!(res.best_move.count_ones(), 1);
    assert!(b.put_able() & res.best_move != 0);
    // the chosen move must actually achieve the reported score
    let mut child = b;
    child.put_piece_fast(res.best_move);
    assert_eq!(-brute_force(&child, false), reference);
}

#[test]
fn winning_solver_reports_the_sign_of_the_exact_score() {
    let b = position_with_empties(7);
    if b.put_able() == 0 {
        return;
    }
    let reference = brute_force(&b, false);
    let mut search = Search::new(&b, 0, TranspositionTable::new(), Evaluator::new());
    let res = winning_solver(&b, &mut search).ok().unwrap();
    assert_eq!(res.eval.signum(), reference.signum());
    assert_eq!(res.best_move.count_ones(), 1);
    assert!(b.put_able() & res.best_move != 0);
}

#[test]
fn eval_solver_returns_a_legal_move() {
    let b = Board::new();
    let mut search = Search::new(&b, 0, TranspositionTable::new(), Evaluator::new());
    let res = eval_solver(&b, 4, &mut search).ok().unwrap();
    assert_eq!(res.best_move.count_ones(), 1);
    assert!(b.put_able() & res.best_move != 0);
    assert!(res.eval >= -64 && res.eval <= 64);
}

#[test]
fn solvers_fail_only_without_a_legal_move() {
    // a terminal full board gives the mover no move
    let full = Board { bit_board: [0xFFFFFFFF00000000u64, 0x00000000FFFFFFFFu64], next_turn: 0 };
    let mut search = Search::new(&full, 0, TranspositionTable::new(), Evaluator::new());
    assert!(matches!(perfect_solver(&full, 0, &mut search), Err(SolverErr::NoMove)));
    assert!(matches!(winning_solver(&full, &mut search), Err(SolverErr::NoMove)));
    assert!(matches!(eval_solver(&full, 4, &mut search), Err(SolverErr::NoMove)));
}
