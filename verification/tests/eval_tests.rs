//! Evaluator behavior: feature codes read off the board, weight sums,
//! scaling and clamping, and consistency across board symmetries.

use othello::board::Board;
use othello::eval::{Evaluator, N_PATTERN, N_ROTATION};

#[test]
fn evaluator_shapes_are_well_formed() {
    let e = Evaluator::new();
    assert_eq!(e.patterns.len(), N_PATTERN);
    assert_eq!(e.eval.len(), 2);
    assert_eq!(e.eval[0].len(), 31);
    assert_eq!(e.feature_bit.len(), N_PATTERN);
    for p in e.patterns.iter() {
        assert_eq!(p.feature_coord.len(), N_ROTATION);
        for row in p.feature_coord.iter() {
            assert_eq!(row.len(), p.n_pattern_square as usize);
            assert!(row.iter().all(|&c| c < 64));
        }
    }
}

#[test]
fn feature_codes_of_the_empty_and_full_boards() {
    let mut e = Evaluator::new();
    // all empty squares: every feature code is zero
    let empty = Board { bit_board: [1u64 << 0 | 1u64 << 9, 1u64 << 18 | 1u64 << 27], next_turn: 0 };
    // (a small board so the invariant of four stones holds)
    e.clac_features(&empty);
    // the mover's stones encode digit 1, the opponent's digit 2, empty 0:
    // check one known pattern: the fourth pattern's first rotation reads
    // row 3 (squares 16..23); square 18 holds an opponent stone there.
    // Its code is therefore 2 * 3^(7 - 2) = 486.
    assert_eq!(e.feature_bit[3][0], 486);

    // a board where the mover owns the same square gives digit 1 there
    let own = Board { bit_board: [1u64 << 18 | 1u64 << 0, 1u64 << 9 | 1u64 << 27], next_turn: 0 };
    e.clac_features(&own);
    assert_eq!(e.feature_bit[3][0], 243);
}

#[test]
fn zero_weights_give_a_zero_score() {
    let mut e = Evaluator::new();
    let b = Board::new();
    let v = e.clac_features_eval(&b);
    assert_eq!(v, 0);
}

#[test]
fn scores_scale_and_clamp_to_the_stone_range() {
    let mut e = Evaluator::new();
    let b = Board::new();
    // drive the constant term: one stone is 128 raw units
    e.eval[0][0].const_eval = 128;
    assert_eq!(e.clac_features_eval(&b), 1);
    e.eval[0][0].const_eval = 63; // rounds away from zero at half a stone
    assert_eq!(e.clac_features_eval(&b), 0);
    e.eval[0][0].const_eval = 64;
    assert_eq!(e.clac_features_eval(&b), 1);
    e.eval[0][0].const_eval = -64;
    assert_eq!(e.clac_features_eval(&b), -1);
    e.eval[0][0].const_eval = 32767;
    assert_eq!(e.clac_features_eval(&b), 64); // clamped
    e.eval[0][0].const_eval = -32767;
    assert_eq!(e.clac_features_eval(&b), -64);
}

#[test]
fn mobility_term_reads_the_centered_difference() {
    let mut e = Evaluator::new();
    let b = Board::new();
    // the initial position gives both sides four moves: index 64
    for (i, w) in e.eval[0][0].mobility_eval.iter_mut().enumerate() {
        *w = i as i16;
    }
    // raw sum is 64, scaled by 128 and rounded: (64 + 64) / 128 = 1
    assert_eq!(e.clac_features_eval(&b), 1);
}

#[test]
fn rotated_boards_share_feature_code_multisets() {
    // each pattern's four rotation rows read the four rotated images of
    // one shape, so rotating the whole board permutes the codes of a
    // pattern among its rotations
    let mut b = Board::new();
    b.put_piece(1u64 << 19).unwrap();
    let rots = b.get_all_rotations();
    let mut e = Evaluator::new();
    let mut first: Vec<Vec<u16>> = Vec::new();
    e.clac_features(&rots[0]);
    for p in 0..N_PATTERN {
        let mut row = e.feature_bit[p].clone();
        row.sort_unstable();
        first.push(row);
    }
    for r in rots.iter().skip(1) {
        // rotations keep the side to move, so codes stay comparable
        e.clac_features(r);
        for p in 0..N_PATTERN {
            let mut row = e.feature_bit[p].clone();
            row.sort_unstable();
            assert_eq!(row, first[p]);
        }
    }
}

#[test]
fn evaluation_is_rotation_invariant_given_shared_weights() {
    // because the evaluator sums each pattern over all four rotations,
    // rotating the board leaves the total unchanged
    let mut b = Board::new();
    b.put_piece(1u64 << 19).unwrap();
    let mut e = Evaluator::new();
    // arbitrary but fixed nonzero weights, keyed only by feature value
    for side in 0..2 {
        for phase in 0..31 {
            for pat in 0..N_PATTERN {
                let row = &mut e.eval[side][phase].pattern_eval[pat];
                for (f, w) in row.iter_mut().enumerate() {
                    *w = ((f * 7 + pat * 13) % 251) as i16;
                }
            }
        }
    }
    let rots = b.get_all_rotations();
    let base = e.clac_features_eval(&rots[0]);
    for r in rots.iter().skip(1) {
        assert_eq!(e.clac_features_eval(r), base);
    }
}
