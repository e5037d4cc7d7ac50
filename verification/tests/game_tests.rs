//! Game records, the board stack, coordinate parsing, record replay, the
//! transposition table and the simple players.

use othello::board::Board;
use othello::board_manager::BoardManager;
use othello::game::Game;
use othello::learn::{chars_to_move_bit, replay_record};
use othello::t_table::TranspositionTable;

#[test]
fn board_manager_stacks_and_undoes() {
    let mut bm = BoardManager::new();
    let first = bm.current_board();
    assert_eq!(first.bit_board[0], 0x0000000810000000u64);
    let mut b = first;
    b.put_piece(1u64 << 19).unwrap();
    bm.add(b);
    assert_eq!(bm.current_board().bit_board, b.bit_board);
    let popped = bm.undo();
    assert_eq!(popped.bit_board, b.bit_board);
    assert_eq!(bm.current_board().bit_board, first.bit_board);
    bm.clean();
    assert_eq!(bm.board_record.len(), 1);
}

#[test]
fn game_cursor_moves_and_truncates() {
    let mut g = Game::new();
    let mut b = *g.current_board();
    b.put_piece(1u64 << 19).unwrap();
    g.add(b, 1u64 << 19);
    assert_eq!(g.current_board().bit_board, b.bit_board);
    g.undo();
    assert_eq!(g.current_board().bit_board, Board::new().bit_board);
    g.redo();
    assert_eq!(g.current_board().bit_board, b.bit_board);
    // adding after an undo drops the old line
    g.undo();
    let mut c = *g.current_board();
    c.put_piece(1u64 << 26).unwrap();
    g.add(c, 1u64 << 26);
    assert_eq!(g.record.len(), 2);
    assert_eq!(g.current_board().bit_board, c.bit_board);
    g.reset();
    assert_eq!(g.record.len(), 1);
    assert_eq!(g.current_index, 0);
}

#[test]
fn chars_to_move_bit_reads_coordinates() {
    assert_eq!(chars_to_move_bit(['a', '1']), 1u64 << 0);
    assert_eq!(chars_to_move_bit(['h', '8']), 1u64 << 63);
    assert_eq!(chars_to_move_bit(['d', '3']), 1u64 << 19);
    assert_eq!(chars_to_move_bit(['f', '5']), 1u64 << 37);
}

#[test]
fn replay_rebuilds_a_short_opening() {
    let moves = vec![['f', '5'], ['d', '6'], ['c', '3'], ['d', '3'], ['c', '4']];
    let t = replay_record(&moves).unwrap();
    assert_eq!(t.bm.board_record.len(), 6);
    let last = t.bm.board_record.last().unwrap();
    assert_eq!(last.piece_count(), 9);
    // replay of an impossible move fails
    let bad = vec![['a', '1']];
    assert!(replay_record(&bad).is_none());
}

#[test]
fn transposition_table_round_trips_an_entry() {
    let mut tt = TranspositionTable::new();
    let b = Board::new();
    assert!(tt.get(&b).is_none());
    tt.add(&b, -3, 5, 12, 0, 19);
    let hit = tt.get(&b).unwrap();
    assert_eq!(hit.min, -3);
    assert_eq!(hit.max, 5);
    assert_eq!(hit.lv, 12);
    assert_eq!(hit.selectivity_lv, 0);
    assert_eq!(hit.best_move, 19);
    assert_eq!(hit.board.bit_board, b.bit_board);
    // a different position does not match the stored entry
    let mut b2 = b;
    b2.put_piece(1u64 << 19).unwrap();
    assert!(tt.get(&b2).is_none() || tt.get(&b2).unwrap().board.bit_board == b2.bit_board);
    // last write wins
    tt.add(&b, 1, 1, 13, 2, 26);
    let hit2 = tt.get(&b).unwrap();
    assert_eq!((hit2.min, hit2.max, hit2.lv), (1, 1, 13));
}

#[test]
fn simple_players_play_legal_moves() {
    let mut b = Board::new();
    assert!(othello::eval_simple::put_eval_one_simple(&mut b).is_ok());
    assert_eq!(b.piece_count(), 5);
    let mut b2 = Board::new();
    assert!(othello::ai::put_eval_zero_simple(&mut b2).is_ok());
    assert_eq!(b2.piece_count(), 5);
    let mut b3 = Board::new();
    assert!(othello::eval_simple::put_random_piece(&mut b3).is_ok());
    assert_eq!(b3.piece_count(), 5);
    let mut b4 = Board::new();
    assert!(othello::ai::put_eval_one_simple(&mut b4).is_ok());
    assert_eq!(b4.piece_count(), 5);
    // a full board leaves every player without a move
    let full = Board { bit_board: [0xFFFFFFFF00000000u64, 0x00000000FFFFFFFFu64], next_turn: 0 };
    let mut f = full;
    assert!(othello::eval_simple::put_eval_one_simple(&mut f).is_err());
    assert_eq!(f.bit_board, full.bit_board);
}

#[test]
fn simplest_eval_is_decisive_on_finished_games() {
    let b = Board { bit_board: [0xFFFFFFFFFFFFFF00u64, 0x00000000000000FFu64], next_turn: 0 };
    assert_eq!(othello::eval_simple::simplest_eval(&b), 1000);
    let w = Board { bit_board: b.bit_board, next_turn: 1 };
    assert_eq!(othello::eval_simple::simplest_eval(&w), -1000);
}
