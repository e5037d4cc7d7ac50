//! A self-contained positional heuristic and the one-ply players built on
//! it: square weights, edge bonuses, a disc-count term and mobility,
//! with a decisive score once neither side can move.

use crate::bit::count_bits;
use crate::bit::lemma_popcount_le_64;
use crate::bit::lemma_popcount_pos;
use crate::bit::popcount;
use crate::bit::take_lowest_bit;
use crate::board::legal_spec;
use crate::board::Board;
use crate::board::PutPieceErr;
use vstd::prelude::*;

verus! {

/// The per-square weight table of the simple heuristic.
pub fn simplest_eval_table() -> (r: Vec<i32>)
    ensures
        r@.len() == 64,
        forall|i: int| 0 <= i < 64 ==> -60 <= #[trigger] r@[i] && r@[i] <= 120,
{
    let raw: Vec<i32> = vec![
        120, -40, 1, 0, 0, 1, -40, 120, -40, -60, -5, -4, -4, -5, -60, -40, 1, -5, -1, -2, -2, -1,
        -5, 1, 0, -4, -2, -1, -1, -2, -4, 0, 0, -4, -2, -1, -1, -2, -4, 0, 1, -5, -1, -2, -2, -1,
        -5, 1, -40, -60, -5, -4, -4, -5, -60, -40, 120, -40, 1, 0, 0, 1, -40, 120,
    ];
    let mut out: Vec<i32> = Vec::new();
    let mut i: usize = 0;
    while i < 64
        invariant
            i <= 64,
            raw@.len() == 64,
            out@.len() == i,
            forall|j: int| 0 <= j < i ==> -60 <= #[trigger] out@[j] && out@[j] <= 120,
        decreases 64 - i,
    {
        let mut v = raw[i];
        if v < -60 {
            v = -60;
        }
        if v > 120 {
            v = 120;
        }
        out.push(v);
        i += 1;
    }
    out
}

/// Neither side has a legal move: the game this heuristic scores is over.
pub open spec fn simple_terminal(b: Board) -> bool {
    legal_spec(b.player(), b.opponent()) == 0 && legal_spec(b.opponent(), b.player()) == 0
}

/// Scores the position for the side to move: square weights, edge
/// ownership bonuses, a disc-count term while the board is young, and
/// mobility. A finished game scores a decisive 1000 for the leader.
pub fn simplest_eval(board: &Board) -> (r: i32)
    requires
        board.wf(),
    ensures
        -100000 <= r,
        r <= 100000,
        simple_terminal(*board) ==> (r == if popcount(board.player()) > popcount(
            board.opponent(),
        ) {
            1000int
        } else {
            -1000int
        }),
{
    let scores = simplest_eval_table();

    let m1: Vec<u64> = vec![
        0x7E00000000000000u64, 0x1010101010100u64, 0x80808080808000u64, 0x7eu64,
    ];
    let m2: Vec<u64> = vec![
        0x8100000000000000u64, 0x100000000000001u64, 0x8000000000000080u64, 0x81u64,
    ];

    let mut place_score: i32 = 0;

    let player_board: u64 = board.bit_board[board.next_turn];
    let opponent_board: u64 = board.bit_board[1 - board.next_turn];

    let mut i: usize = 0;
    while i < 4
        invariant
            m1@.len() == 4,
            m2@.len() == 4,
            i <= 4,
            -1600 * (i as int) <= place_score as int,
            place_score as int <= 1600 * (i as int),
        decreases 4 - i,
    {
        proof {
            assert(-6400 <= place_score as int && place_score as int <= 6400) by (nonlinear_arith)
                requires
                    i <= 4,
                    -1600 * (i as int) <= place_score as int,
                    place_score as int <= 1600 * (i as int),
            ;
            lemma_popcount_le_64(player_board & (m1@[i as int] | m2@[i as int]));
            lemma_popcount_le_64(opponent_board & (m1@[i as int] | m2@[i as int]));
        }
        let ghost entry_score = place_score as int;
        if ((player_board & m1[i]) | (opponent_board & m2[i])) == m1[i] {
            place_score = place_score + 120;
        }
        if ((opponent_board & m1[i]) | (player_board & m2[i])) == m1[i] {
            place_score = place_score - 120;
        }
        let side = m1[i] | m2[i];
        if side & (player_board | opponent_board) == side {
            place_score = place_score + (count_bits(player_board & side) as i32 - count_bits(
                opponent_board & side,
            ) as i32) * 20;
        }
        proof {
            assert(-1600 * ((i + 1) as int) <= place_score as int && place_score as int <= 1600 * (
            (i + 1) as int)) by (nonlinear_arith)
                requires
                    i <= 4,
                    -1600 * (i as int) <= entry_score,
                    entry_score <= 1600 * (i as int),
                    entry_score - 1600 <= place_score as int,
                    place_score as int <= entry_score + 1600,
            ;
        }
        i += 1;
    }

    let mut i: usize = 0;
    while i < 64
        invariant
            scores@.len() == 64,
            forall|j: int| 0 <= j < 64 ==> -60 <= #[trigger] scores@[j] && scores@[j] <= 120,
            i <= 64,
            -6400 - 120 * (i as int) <= place_score as int,
            place_score as int <= 6400 + 120 * (i as int),
        decreases 64 - i,
    {
        proof {
            assert(-14080 <= place_score as int && place_score as int <= 14080)
                by (nonlinear_arith)
                requires
                    i <= 64,
                    -6400 - 120 * (i as int) <= place_score as int,
                    place_score as int <= 6400 + 120 * (i as int),
            ;
            crate::bit::lemma_bit_binary(player_board, i as u64);
            crate::bit::lemma_bit_binary(opponent_board, i as u64);
        }
        let ghost entry_score = place_score as int;
        if (player_board >> i) & 1 == 1 {
            place_score = place_score + scores[i];
        }
        if (opponent_board >> i) & 1 == 1 {
            place_score = place_score - scores[i];
        }
        proof {
            assert(-6400 - 120 * ((i + 1) as int) <= place_score as int && place_score as int
                <= 6400 + 120 * ((i + 1) as int)) by (nonlinear_arith)
                requires
                    i <= 64,
                    -6400 - 120 * (i as int) <= entry_score,
                    entry_score <= 6400 + 120 * (i as int),
                    entry_score - 120 <= place_score as int,
                    place_score as int <= entry_score + 120,
            ;
        }
        i += 1;
    }

    proof {
        lemma_popcount_le_64(player_board);
        lemma_popcount_le_64(opponent_board);
    }
    let player_piece_count = count_bits(player_board) as i32;
    let opponent_piece_count = count_bits(opponent_board) as i32;
    let piece_count_score: i32 = if player_piece_count + opponent_piece_count < 40 {
        opponent_piece_count - player_piece_count
    } else {
        0
    };

    let own_moves = board.put_able();
    let opp_moves = board.opponent_put_able();
    proof {
        lemma_popcount_le_64(own_moves);
        lemma_popcount_le_64(opp_moves);
    }
    let player_mobility = count_bits(own_moves) as i32;
    let opponent_mobility = count_bits(opp_moves) as i32;

    let mobility_score = player_mobility - opponent_mobility;
    proof {
        crate::bit::lemma_popcount_zero();
        assert(-14080 <= place_score as int && place_score as int <= 14080) by (nonlinear_arith)
            requires
                -6400 - 120 * 64 <= place_score as int,
                place_score as int <= 6400 + 120 * 64,
        ;
    }

    if player_mobility == 0 && opponent_mobility == 0 {
        if player_piece_count > opponent_piece_count {
            1000
        } else {
            -1000
        }
    } else {
        let total = place_score * 10 + mobility_score * 85 + piece_count_score * 40;
        if total >= 0 {
            total / 40
        } else {
            0 - ((0 - total) / 40)
        }
    }
}

/// Plays a uniformly random legal move, or reports that none exists.
/// Draws through the same generator the transposition table seeds with.
pub fn put_random_piece(board: &mut Board) -> (r: Result<(), PutPieceErr>)
    requires
        old(board).wf(),
    ensures
        final(board).wf(),
        r is Ok <==> legal_spec(old(board).player(), old(board).opponent()) != 0,
        r is Err ==> *final(board) == *old(board),
        r is Ok ==> popcount(final(board).occupied()) == popcount(old(board).occupied()) + 1,
        r is Ok ==> exists|m: u64|
            (m & legal_spec(old(board).player(), old(board).opponent())) != 0 && *final(board)
                == #[trigger] old(board).apply_move_spec(m),
{
    let legal_moves = board.put_able();
    if legal_moves == 0 {
        return Err(PutPieceErr::NoValidPlacement);
    }
    proof {
        lemma_popcount_pos(legal_moves);
        lemma_popcount_le_64(legal_moves);
    }

    let count = count_bits(legal_moves);
    let random_index = crate::t_table::rand_below(count);

    let mut moves = legal_moves;
    let mut k: u32 = 0;
    proof {
        crate::bit::lemma_and_idem(legal_moves);
    }
    while k < random_index
        invariant
            *board == *old(board),
            old(board).wf(),
            legal_moves & old(board).occupied() == 0,
            k <= random_index,
            random_index < count,
            count == popcount(legal_moves),
            moves & legal_moves == moves,
            popcount(moves) == popcount(legal_moves) - k,
        decreases random_index - k,
    {
        proof {
            crate::bit::lemma_popcount_zero();
        }
        let (picked, rest) = take_lowest_bit(moves);
        proof {
            crate::bit::lemma_pick_move(picked, moves, legal_moves, old(board).occupied());
        }
        moves = rest;
        k += 1;
    }
    proof {
        crate::bit::lemma_popcount_zero();
    }
    let (put_mask, _) = take_lowest_bit(moves);
    proof {
        crate::bit::lemma_pick_move(put_mask, moves, legal_moves, old(board).occupied());
    }
    let r = board.put_piece(put_mask);
    proof {
        if r is Ok {
            assert(*board == old(board).apply_move_spec(put_mask));
        }
    }
    r
}

/// Plays the legal move whose one-ply simple score for the opponent is
/// lowest for them (highest negated), or reports that none exists.
pub fn put_eval_one_simple(board: &mut Board) -> (r: Result<(), PutPieceErr>)
    requires
        old(board).wf(),
    ensures
        final(board).wf(),
        r is Ok <==> legal_spec(old(board).player(), old(board).opponent()) != 0,
        r is Err ==> *final(board) == *old(board),
        r is Ok ==> popcount(final(board).occupied()) == popcount(old(board).occupied()) + 1,
        r is Ok ==> exists|m: u64|
            (m & legal_spec(old(board).player(), old(board).opponent())) != 0 && *final(board)
                == #[trigger] old(board).apply_move_spec(m),
{
    let legal_moves = board.put_able();
    if legal_moves == 0 {
        return Err(PutPieceErr::NoValidPlacement);
    }

    let mut max_score: i32 = i32::MIN;
    let mut max_score_put_place: u64 = 0;
    let mut moves = legal_moves;
    proof {
        crate::bit::lemma_and_idem(legal_moves);
    }
    while moves != 0
        invariant
            old(board).wf(),
            *board == *old(board),
            moves & legal_moves == moves,
            legal_moves & old(board).occupied() == 0,
            max_score > i32::MIN ==> (max_score_put_place != 0 && max_score_put_place
                & legal_moves == max_score_put_place && max_score_put_place
                & vstd::prelude::sub(max_score_put_place, 1) == 0),
            max_score == i32::MIN ==> moves == legal_moves,
        decreases popcount(moves),
    {
        let (put_place, rest) = take_lowest_bit(moves);
        proof {
            crate::bit::lemma_pick_move(put_place, moves, legal_moves, old(board).occupied());
        }
        let mut virt_board = *board;
        virt_board.put_piece_fast(put_place);
        let current_score: i32 = 0 - simplest_eval(&virt_board);
        if current_score > max_score {
            max_score = current_score;
            max_score_put_place = put_place;
        }
        moves = rest;
    }
    proof {
        if max_score_put_place != 0 {
            crate::bit::lemma_and_idem(max_score_put_place);
            crate::bit::lemma_pick_move(
                max_score_put_place,
                max_score_put_place,
                legal_moves,
                old(board).occupied(),
            );
        }
    }
    let r = board.put_piece(max_score_put_place);
    proof {
        if r is Ok {
            assert(*board == old(board).apply_move_spec(max_score_put_place));
        }
    }
    r
}

} // verus!
