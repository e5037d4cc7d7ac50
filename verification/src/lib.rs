//! Verified core of an 8x8 Othello/Reversi engine: bitboard move generation,
//! pattern-based evaluation, transposition table, and the family of
//! negamax/alpha-beta/negascout/probcut search routines plus endgame solvers.

pub mod ai;
pub mod bit;
pub mod board;
pub mod board_manager;
pub mod eval;
pub mod eval_search;
pub mod eval_simple;
pub mod game;
pub mod learn;
pub mod mpc;
pub mod perfect_search;
pub mod search;
pub mod solver;
pub mod t_table;
