//! Replay of recorded games for the training pipeline: coordinate
//! parsing and the reconstruction of every position of a recorded game,
//! scored at the end for Black. Reading record files and fitting weights
//! stay with the surrounding program.

use crate::board::legal_spec;
use crate::board::Board;
use crate::board_manager::BoardManager;
use crate::perfect_search::solve_score;
use vstd::prelude::*;

verus! {

/// The square index a coordinate pair names: file letter then rank digit.
pub open spec fn move_chars_index(file: char, rank: char) -> int {
    (file as int - 'a' as int) + (rank as int - '1' as int) * 8
}

/// Turns a coordinate pair such as the letters of "f5" into the
/// single-bit mask of that square.
pub fn chars_to_move_bit(s: [char; 2]) -> (r: u64)
    requires
        'a' <= s[0] <= 'h',
        '1' <= s[1] <= '8',
    ensures
        r == (1u64 << move_chars_index(s[0], s[1])),
        r != 0,
    {
    let x: u32 = match s[0] {
        'a' => 0,
        'b' => 1,
        'c' => 2,
        'd' => 3,
        'e' => 4,
        'f' => 5,
        'g' => 6,
        _ => 7,
    };
    let y: u32 = match s[1] {
        '1' => 0,
        '2' => 1,
        '3' => 2,
        '4' => 3,
        '5' => 4,
        '6' => 5,
        '7' => 6,
        _ => 7,
    };
    proof {
        crate::bit::lemma_shift_single((x + y * 8) as u64);
    }
    1u64 << (x + y * 8)
}

/// One step of a replay: the next position is the previous one with the
/// parsed move applied, for the side to move when the move is legal for
/// it, and otherwise for the other side after the implicit pass.
pub open spec fn replay_step(prev: Board, nxt: Board, mv: [char; 2]) -> bool {
    let m = (1u64 << move_chars_index(mv[0], mv[1]));
    if legal_spec(prev.player(), prev.opponent()) & m != 0 {
        nxt == prev.apply_move_spec(m)
    } else {
        nxt == prev.passed().apply_move_spec(m)
    }
}

/// One replayed game: its positions in order, and the final score from
/// Black's side.
#[derive(Clone)]
pub struct Training {
    pub bm: BoardManager,
    pub score_black: i32,
}

impl Training {
    /// An empty replay holding the initial position and no score yet.
    pub fn new() -> (r: Training)
        ensures
            r.bm.board_record@.len() == 1,
            r.bm.board_record@[0] == Board::initial_spec(),
            r.score_black == 0,
    {
        Training { bm: BoardManager::new(), score_black: 0 }
    }
}

/// Replays one recorded game, a flat run of coordinate pairs, building
/// every position in order; the final position is scored for Black. A
/// move illegal for the side to move is retried for the other side, as
/// the record format leaves passes implicit; a move legal for neither
/// fails the replay.
pub fn replay_record(moves: &Vec<[char; 2]>) -> (r: Option<Training>)
    requires
        forall|i: int|
            0 <= i < moves@.len() ==> 'a' <= (#[trigger] moves@[i])[0] <= 'h' && '1'
                <= moves@[i][1] <= '8',
    ensures
        r matches Some(t) ==> t.bm.board_record@.len() == moves@.len() + 1 && forall|i: int|
            0 <= i < t.bm.board_record@.len() ==> (#[trigger] t.bm.board_record@[i]).wf(),
        r matches Some(t) ==> t.bm.board_record@[0] == Board::initial_spec() && forall|i: int|
            0 <= i < moves@.len() ==> replay_step(
                #[trigger] t.bm.board_record@[i],
                t.bm.board_record@[i + 1],
                moves@[i],
            ),
        r matches Some(t) ==> t.score_black == crate::perfect_search::solve_score_spec(
            (Board {
                bit_board: t.bm.board_record@[moves@.len() as int].bit_board,
                next_turn: 0,
            }),
        ),
{
    let mut td = Training::new();
    proof {
        crate::board::lemma_initial_board();
    }
    let mut i: usize = 0;
    while i < moves.len()
        invariant
            forall|k: int|
                0 <= k < moves@.len() ==> 'a' <= (#[trigger] moves@[k])[0] <= 'h' && '1'
                    <= moves@[k][1] <= '8',
            i <= moves@.len(),
            td.bm.board_record@.len() == i + 1,
            td.bm.board_record@[0] == Board::initial_spec(),
            forall|k: int|
                0 <= k < td.bm.board_record@.len() ==> (#[trigger] td.bm.board_record@[k]).wf(),
            forall|k: int|
                0 <= k < i ==> replay_step(
                    #[trigger] td.bm.board_record@[k],
                    td.bm.board_record@[k + 1],
                    moves@[k],
                ),
        decreases moves@.len() - i,
    {
        proof {
            crate::board::lemma_initial_board();
            assert(td.bm.board_record@[td.bm.board_record@.len() - 1].wf());
        }
        let mut board = td.bm.current_board();
        let move_bit = chars_to_move_bit(moves[i]);
        proof {
            let sh = move_chars_index(moves@[i as int][0], moves@[i as int][1]);
            assert(0 <= sh < 64);
            let shu: u64 = sh as u64;
            crate::bit::lemma_shift_single(shu);
            assert(1u64 << sh == 1u64 << shu);
        }
        let ghost prev = board;
        if board.put_piece(move_bit).is_err() {
            board.next_turn = 1 - board.next_turn;
            proof {
                assert(board == prev.passed());
            }
            if board.put_piece(move_bit).is_err() {
                return None;
            }
        }
        proof {
            assert(replay_step(prev, board, moves@[i as int]));
        }
        td.bm.add(board);
        i += 1;
    }
    proof {
        assert(td.bm.board_record@[td.bm.board_record@.len() - 1].wf());
    }
    let mut final_board = td.bm.current_board();
    final_board.next_turn = 0;
    proof {
        assert(final_board == (Board {
            bit_board: td.bm.board_record@[moves@.len() as int].bit_board,
            next_turn: 0,
        }));
    }
    td.score_black = solve_score(&final_board);
    Some(td)
}

} // verus!
