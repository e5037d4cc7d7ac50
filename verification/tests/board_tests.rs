//! Board-level behavior: the initial position, move generation, move
//! application with flips, symmetry transforms and coordinate notation.

use othello::bit::{horizontal_mirror, transpose, vertical_mirror};
use othello::board::{Board, PutPieceErr};

fn initial() -> Board {
    Board::new()
}

#[test]
fn initial_position_has_four_stones() {
    let b = initial();
    assert_eq!(b.piece_count(), 4);
    assert_eq!(b.empties_count(), 60);
    assert_eq!(b.move_count(), 0);
    assert_eq!(b.bit_board[0], 0x0000000810000000u64);
    assert_eq!(b.bit_board[1], 0x0000001008000000u64);
    assert_eq!(b.next_turn, 0);
}

#[test]
fn initial_position_has_exactly_four_legal_moves() {
    let b = initial();
    let legal = b.put_able();
    assert_eq!(legal.count_ones(), 4);
    // d3, c4, f5, e6 for Black
    let expected = (1u64 << 19) | (1u64 << 26) | (1u64 << 37) | (1u64 << 44);
    assert_eq!(legal, expected);
}

#[test]
fn full_board_has_no_legal_moves_for_either_side() {
    let b = Board { bit_board: [0xFFFFFFFF00000000u64, 0x00000000FFFFFFFFu64], next_turn: 0 };
    assert_eq!(b.put_able(), 0);
    assert_eq!(b.opponent_put_able(), 0);
    let w = Board { bit_board: b.bit_board, next_turn: 1 };
    assert_eq!(w.put_able(), 0);
    // score equals disc difference
    let score = othello::perfect_search::solve_score(&b);
    assert_eq!(score, 0);
    let lop = Board { bit_board: [0xFFFFFFFFFFFFFF00u64, 0x00000000000000FFu64], next_turn: 0 };
    assert_eq!(othello::perfect_search::solve_score(&lop), 56 - 8);
}

#[test]
fn apply_move_flips_exactly_the_enclosed_run() {
    // White stones d4..f4, Black at g4, empty at c4: Black plays c4 and
    // flips exactly d4, e4, f4 along the one axis.
    let black = 1u64 << 30; // g4
    let white = (1u64 << 27) | (1u64 << 28) | (1u64 << 29); // d4, e4, f4
    let mut b = Board { bit_board: [black, white], next_turn: 0 };
    let mv = 1u64 << 26; // c4
    assert!(b.put_able() & mv != 0);
    let flips = b.flip_bit(mv);
    assert_eq!(flips, white);
    b.put_piece_fast(mv);
    assert_eq!(b.bit_board[0], black | white | mv);
    assert_eq!(b.bit_board[1], 0);
    assert_eq!(b.next_turn, 1);
}

#[test]
fn apply_move_increases_disc_count_by_one_plus_flips() {
    let mut b = initial();
    let before = b.piece_count();
    let mv = 1u64 << 19; // d3
    let flips = b.flip_bit(mv);
    assert_eq!(flips.count_ones(), 1); // flips d4
    assert!(b.put_piece(mv).is_ok());
    assert_eq!(b.piece_count(), before + 1);
    // every flipped square changed from White to Black
    assert_eq!(b.bit_board[0] & flips, flips);
    assert_eq!(b.bit_board[1] & flips, 0);
}

#[test]
fn illegal_placement_is_rejected_and_leaves_the_board_alone() {
    let mut b = initial();
    let before = b.bit_board;
    let r = b.put_piece(1u64 << 0); // a1 is not legal at the start
    assert!(matches!(r, Err(PutPieceErr::NoValidPlacement)));
    assert_eq!(b.bit_board, before);
    assert_eq!(b.next_turn, 0);
}

#[test]
fn put_piece_from_coord_plays_d3() {
    let mut b = initial();
    assert!(b.put_piece_from_coord(2, 3).is_ok()); // row 2, col 3 = d3
    assert_eq!(b.piece_count(), 5);
}

#[test]
fn legal_moves_land_only_on_empty_squares() {
    let mut b = initial();
    for _ in 0..20 {
        let legal = b.put_able();
        if legal == 0 {
            break;
        }
        assert_eq!(legal & (b.bit_board[0] | b.bit_board[1]), 0);
        let mv = legal & legal.wrapping_neg();
        assert!(b.put_piece(mv).is_ok());
        assert_eq!(b.bit_board[0] & b.bit_board[1], 0);
        let total = b.piece_count();
        assert!((4..=64).contains(&total));
    }
}

#[test]
fn transforms_are_involutions() {
    let samples = [
        0u64,
        u64::MAX,
        0x0000000810000000u64,
        0x123456789ABCDEF0u64,
        0x8000000000000001u64,
    ];
    for &m in samples.iter() {
        assert_eq!(transpose(transpose(m)), m);
        assert_eq!(vertical_mirror(vertical_mirror(m)), m);
        assert_eq!(horizontal_mirror(horizontal_mirror(m)), m);
    }
}

#[test]
fn transpose_moves_a_corner_correctly() {
    // h1 (bit 7) goes to a8 (bit 56) under the diagonal transpose.
    assert_eq!(transpose(1u64 << 7), 1u64 << 56);
    // b1 (bit 1) goes to a2 (bit 8).
    assert_eq!(transpose(1u64 << 1), 1u64 << 8);
    // vertical mirror sends a1 to a8.
    assert_eq!(vertical_mirror(1u64 << 0), 1u64 << 56);
    // horizontal mirror sends a1 to h1.
    assert_eq!(horizontal_mirror(1u64 << 0), 1u64 << 7);
}

#[test]
fn all_eight_symmetries_preserve_counts_and_disjointness() {
    let mut b = initial();
    b.put_piece(1u64 << 19).unwrap();
    let syms = b.get_all_symmetries();
    assert_eq!(syms.len(), 8);
    assert_eq!(syms[0].bit_board, b.bit_board);
    for s in syms.iter() {
        assert_eq!(s.bit_board[0] & s.bit_board[1], 0);
        assert_eq!(s.bit_board[0].count_ones(), b.bit_board[0].count_ones());
        assert_eq!(s.bit_board[1].count_ones(), b.bit_board[1].count_ones());
    }
    let rots = b.get_all_rotations();
    assert_eq!(rots.len(), 4);
    assert_eq!(rots[0].bit_board, b.bit_board);
    for r in rots.iter() {
        assert_eq!(r.bit_board[0] & r.bit_board[1], 0);
        assert_eq!(r.bit_board[0].count_ones(), b.bit_board[0].count_ones());
    }
}

#[test]
fn symmetry_combination_applied_twice_gives_the_board_back() {
    // Mirrors commute with themselves; applying the same one-transform
    // symmetry twice must return the original masks.
    let mut b = initial();
    b.put_piece(1u64 << 19).unwrap();
    let syms = b.get_all_symmetries();
    // index 1 is the horizontal mirror alone, 2 the vertical, 4 the transpose
    for &i in &[1usize, 2, 4] {
        let once = &syms[i];
        let twice = once.get_all_symmetries();
        assert_eq!(twice[i].bit_board, b.bit_board);
    }
}

#[test]
fn move_bit_to_str_names_squares() {
    assert_eq!(Board::move_bit_to_str(1u64 << 0).unwrap(), "a1");
    assert_eq!(Board::move_bit_to_str(1u64 << 7).unwrap(), "h1");
    assert_eq!(Board::move_bit_to_str(1u64 << 19).unwrap(), "d3");
    assert_eq!(Board::move_bit_to_str(1u64 << 63).unwrap(), "h8");
    assert!(Board::move_bit_to_str(0).is_err());
    assert!(Board::move_bit_to_str(3).is_err());
}

#[test]
fn clear_returns_to_the_initial_position() {
    let mut b = initial();
    b.put_piece(1u64 << 19).unwrap();
    b.clear();
    assert_eq!(b.bit_board[0], 0x0000000810000000u64);
    assert_eq!(b.bit_board[1], 0x0000001008000000u64);
    assert_eq!(b.next_turn, 0);
}
