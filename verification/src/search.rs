//! Search support: the per-call search context (node counters, the
//! transposition table, the evaluator and the selectivity level), child
//! enumeration, move ordering, and the transposition-table cutoff.

use crate::bit::lemma_popcount_le_64;
use crate::bit::popcount;
use crate::bit::take_lowest_bit;
use crate::board::legal_spec;
use crate::board::Board;
use crate::eval::Evaluator;
use crate::t_table::TableData;
use crate::t_table::TranspositionTable;
use vstd::prelude::*;

verus! {

/// Scores are stones in `[-64, 64]`; this bound is the search infinity.
pub const SCORE_INF: i32 = 127;

/// The square index that marks "no move stored".
pub const NO_COORD: u8 = 255;

/// One candidate move: its ordering key, the position after playing it,
/// and the square it lands on.
#[derive(Clone, Copy)]
pub struct PutBoard {
    pub eval: i32,
    pub board: Board,
    pub put_place: u8,
}

/// `pb` is `parent` after one legal move from `legal`: the landing square
/// is in `legal`, the stored position is the result of playing it, and it
/// gained one stone.
pub open spec fn child_of(parent: Board, legal: u64, pb: PutBoard) -> bool {
    pb.put_place < 64 && ((1u64 << pb.put_place) & legal) != 0 && pb.board
        == parent.apply_move_spec(1u64 << pb.put_place) && pb.board.wf() && popcount(
        pb.board.occupied(),
    ) == popcount(parent.occupied()) + 1
}

/// The search state threaded through one root call: node counters, the
/// transposition table, the root position, the evaluator, and the active
/// selectivity level.
pub struct Search {
    pub eval_search_node_count: u64,
    pub eval_search_leaf_node_count: u64,
    pub perfect_search_node_count: u64,
    pub perfect_search_leaf_node_count: u64,
    pub t_table: TranspositionTable,
    pub origin_board: Board,
    pub eval_func: Evaluator,
    pub selectivity_lv: i32,
}

impl Search {
    /// A usable search context: sound table, sound evaluator, and a
    /// selectivity level in range.
    pub open spec fn wf(self) -> bool {
        self.t_table.wf() && self.eval_func.wf() && 0 <= self.selectivity_lv && self.selectivity_lv
            <= 6
    }

    /// Builds a fresh context for one root search.
    pub fn new(board: &Board, selectivity_lv: i32, t_table: TranspositionTable,
        evaluator: Evaluator) -> (r: Search)
        requires
            t_table.wf(),
            evaluator.wf(),
            0 <= selectivity_lv,
            selectivity_lv <= 6,
        ensures
            r.wf(),
            r.origin_board == *board,
            r.selectivity_lv == selectivity_lv,
            r.eval_search_node_count == 0,
            r.eval_search_leaf_node_count == 0,
            r.perfect_search_node_count == 0,
            r.perfect_search_leaf_node_count == 0,
            r.t_table == t_table,
            r.eval_func == evaluator,
    {
        Search {
            eval_search_node_count: 0,
            eval_search_leaf_node_count: 0,
            perfect_search_node_count: 0,
            perfect_search_leaf_node_count: 0,
            t_table,
            origin_board: *board,
            eval_func: evaluator,
            selectivity_lv,
        }
    }
}

/// What every search call leaves untouched of its context: the table and
/// evaluator stay sound, and the selectivity level, the root board, the
/// weight tables and the pattern shapes come back as they went in.
pub open spec fn search_preserved(a: Search, b: Search) -> bool {
    b.wf() && b.selectivity_lv == a.selectivity_lv && b.origin_board == a.origin_board
        && b.eval_func.eval == a.eval_func.eval && b.eval_func.patterns == a.eval_func.patterns
}

/// Fail-soft correctness of a window search: a result at or below alpha
/// bounds the true value from above, one at or above beta bounds it from
/// below, and one strictly inside the window is the true value itself.
pub open spec fn fail_soft(r: int, v: int, alpha: int, beta: int) -> bool {
    (r <= alpha ==> v <= r) && (r >= beta ==> v >= r) && (alpha < r && r < beta ==> r == v)
}

/// A child's landing square names one legal single-bit move of its
/// parent, and the child is the parent after that move.
pub proof fn lemma_child_move(parent: Board, legal: u64, pb: PutBoard)
    requires
        child_of(parent, legal, pb),
    ensures
        (1u64 << pb.put_place) != 0,
        ((1u64 << pb.put_place) & vstd::prelude::sub(1u64 << pb.put_place, 1)) == 0,
        ((1u64 << pb.put_place) & legal) == (1u64 << pb.put_place),
        pb.board == parent.apply_move_spec(1u64 << pb.put_place),
{
    crate::bit::lemma_shift_single(pb.put_place as u64);
    crate::bit::lemma_single_bit_member(1u64 << pb.put_place, legal);
}

/// Neither side has a legal move: the game is over.
pub open spec fn terminal_spec(b: Board) -> bool {
    legal_spec(b.player(), b.opponent()) == 0 && legal_spec(b.opponent(), b.player()) == 0
}

/// Termination measure of a depth budget: depths at or below zero rank
/// alike.
pub open spec fn lv_rank(lv: int) -> int {
    if lv > 0 {
        lv
    } else {
        0
    }
}

/// Termination measure of the pass fast path: a position without a legal
/// move ranks above one with a move, since passing hands such a position
/// a move.
pub open spec fn pass_rank(b: Board) -> int {
    if legal_spec(b.player(), b.opponent()) == 0 {
        1
    } else {
        0
    }
}

/// Empty squares left.
pub open spec fn empties_spec(b: Board) -> int {
    64 - popcount(b.occupied())
}

/// A side with a legal move is looking at a board with room left on it.
pub proof fn lemma_room_left(occ: u64, l: u64)
    requires
        l != 0,
        l & occ == 0,
    ensures
        popcount(occ) < 64,
{
    crate::bit::lemma_popcount_pos(l);
    crate::bit::lemma_popcount_neg(occ);
    assert(l & occ == 0 ==> (!occ & l) == l) by (bit_vector);
    crate::bit::lemma_popcount_remove_subset(!occ, l);
}

/// One more visited node, held at the counter's ceiling instead of
/// wrapping.
pub fn count_up(c: u64) -> (r: u64)
    ensures
        r >= c,
        c < u64::MAX ==> r == c + 1,
{
    if c < u64::MAX {
        c + 1
    } else {
        c
    }
}

/// Every position reachable in one move: one entry per set bit of
/// `legal_moves`, in ascending square order, with untouched ordering keys.
pub fn get_put_boards(board: &Board, legal_moves: u64) -> (r: Vec<PutBoard>)
    requires
        board.wf(),
        legal_moves & board.occupied() == 0,
    ensures
        r@.len() == popcount(legal_moves),
        forall|i: int| 0 <= i < r@.len() ==> child_of(*board, legal_moves, #[trigger] r@[i]),
        forall|j: u64|
            j < 64 && #[trigger] crate::bit::bit64(legal_moves, j) ==> exists|i: int|
                0 <= i < r@.len() && (#[trigger] r@[i]).put_place == j,
{
    let mut put_boards: Vec<PutBoard> = Vec::new();
    let mut moves = legal_moves;
    proof {
        lemma_popcount_le_64(legal_moves);
        crate::bit::lemma_and_idem(legal_moves);
    }
    while moves != 0
        invariant
            board.wf(),
            legal_moves & board.occupied() == 0,
            moves & legal_moves == moves,
            put_boards@.len() == popcount(legal_moves) - popcount(moves),
            forall|i: int|
                0 <= i < put_boards@.len() ==> child_of(*board, legal_moves, #[trigger] put_boards@[i]),
            forall|j: u64|
                j < 64 && #[trigger] crate::bit::bit64(legal_moves, j) && !crate::bit::bit64(
                    moves,
                    j,
                ) ==> exists|i: int|
                    0 <= i < put_boards@.len() && (#[trigger] put_boards@[i]).put_place == j,
        decreases popcount(moves),
    {
        let (put_place, rest) = take_lowest_bit(moves);
        proof {
            crate::bit::lemma_pick_move(put_place, moves, legal_moves, board.occupied());
        }
        let mut put_board = *board;
        put_board.put_piece_fast(put_place);
        let idx: u32 = put_place.trailing_zeros();
        proof {
            broadcast use vstd::std_specs::bits::axiom_u64_trailing_zeros;

            let t = vstd::std_specs::bits::u64_trailing_zeros(put_place) as u64;
            crate::bit::lemma_single_bit_index(put_place, t);
        }
        proof {
            let t = vstd::std_specs::bits::u64_trailing_zeros(put_place) as u64;
            assert(put_place == (1u64 << t));
            assert(child_of(
                *board,
                legal_moves,
                PutBoard { eval: 0, board: put_board, put_place: t as u8 },
            ));
        }
        let ghost pre_boards = put_boards@;
        put_boards.push(PutBoard { eval: 0, board: put_board, put_place: idx as u8 });
        proof {
            let t = vstd::std_specs::bits::u64_trailing_zeros(put_place) as u64;
            assert forall|j: u64|
                j < 64 && #[trigger] crate::bit::bit64(legal_moves, j) && !crate::bit::bit64(
                    rest,
                    j,
                ) implies exists|i: int|
                0 <= i < put_boards@.len() && (#[trigger] put_boards@[i]).put_place == j by {
                if crate::bit::bit64(moves, j) {
                    crate::bit::lemma_single_bit_index(put_place, j);
                    assert(put_boards@[put_boards@.len() - 1].put_place == j);
                } else {
                    let i0 = choose|i: int|
                        0 <= i < pre_boards.len() && (#[trigger] pre_boards[i]).put_place == j;
                    assert(put_boards@[i0].put_place == j);
                }
            }
        }
        moves = rest;
    }
    proof {
        assert(forall|i: u64| i < 64 ==> !crate::bit::bit64(0u64, i)) by (bit_vector);
        crate::bit::lemma_pop_below_zero_mask(0, 64);
    }
    put_boards
}

/// Reorders candidates so that the ordering keys never increase, keeping
/// exactly the entries of the input.
fn sort_put_boards_desc(v: Vec<PutBoard>) -> (r: Vec<PutBoard>)
    ensures
        r@.len() == v@.len(),
        forall|i: int, j: int| #![trigger r@[i], r@[j]] 0 <= i <= j < r@.len() ==> r@[i].eval >= r@[j].eval,
        forall|i: int| #![trigger r@[i]] 0 <= i < r@.len() ==> v@.contains(r@[i]),
        forall|i: int| 0 <= i < v@.len() ==> r@.contains(#[trigger] v@[i]),
{
    let mut r: Vec<PutBoard> = Vec::new();
    let mut k: usize = 0;
    while k < v.len()
        invariant
            k <= v@.len(),
            r@.len() == k,
            forall|i: int, j: int| #![trigger r@[i], r@[j]] 0 <= i <= j < r@.len() ==> r@[i].eval >= r@[j].eval,
            forall|i: int| #![trigger r@[i]] 0 <= i < r@.len() ==> v@.contains(r@[i]),
            forall|i: int| 0 <= i < k ==> r@.contains(#[trigger] v@[i]),
        decreases v@.len() - k,
    {
        let x = v[k];
        let mut pos: usize = 0;
        while pos < r.len() && r[pos].eval >= x.eval
            invariant
                pos <= r@.len(),
                forall|i: int| 0 <= i < pos ==> r@[i].eval >= x.eval,
                forall|i: int, j: int| #![trigger r@[i], r@[j]] 0 <= i <= j < r@.len() ==> r@[i].eval >= r@[j].eval,
            decreases r@.len() - pos,
        {
            pos += 1;
        }
        let ghost old_r = r@;
        r.insert(pos, x);
        proof {
            old_r.insert_ensures(pos as int, x);
            assert forall|i: int| 0 <= i < k + 1 implies r@.contains(#[trigger] v@[i]) by {
                if i < k {
                    let i0 = choose|j: int| 0 <= j < old_r.len() && old_r[j] == v@[i];
                    if i0 < pos {
                        assert(r@[i0] == v@[i]);
                    } else {
                        assert(r@[i0 + 1] == v@[i]);
                    }
                } else {
                    assert(r@[pos as int] == v@[i]);
                }
            }
            assert forall|i: int| #![trigger r@[i]] 0 <= i < r@.len() implies v@.contains(
                r@[i],
            ) by {
                if i < pos {
                    assert(r@[i] == old_r[i]);
                } else if i == pos {
                    assert(r@[i] == x);
                    assert(v@[k as int] == x);
                } else {
                    assert(r@[i] == old_r[i - 1]);
                }
            }
            assert forall|i: int, j: int| #![trigger r@[i], r@[j]] 0 <= i <= j < r@.len() implies
                r@[i].eval >= r@[j].eval by {
                if i < pos {
                    assert(r@[i] == old_r[i]);
                } else if i == pos {
                    assert(r@[i] == x);
                } else {
                    assert(r@[i] == old_r[i - 1]);
                }
                if j < pos {
                    assert(r@[j] == old_r[j]);
                } else if j == pos {
                    assert(r@[j] == x);
                } else {
                    assert(r@[j] == old_r[j - 1]);
                }
            }
        }
        k += 1;
    }
    r
}

/// Candidates ordered by fast-first search: each child keyed by how few
/// replies it leaves the opponent, fewest replies first. The context is
/// not consulted; the parameter mirrors the richer ordering's shape.
pub fn move_ordering_ffs(board: &Board, legal_moves: u64, _search: &mut Search) -> (r: Vec<
    PutBoard,
>)
    requires
        board.wf(),
        legal_moves & board.occupied() == 0,
    ensures
        *final(_search) == *old(_search),
        r@.len() == popcount(legal_moves),
        forall|i: int| 0 <= i < r@.len() ==> child_of(*board, legal_moves, #[trigger] r@[i]),
        forall|i: int|
            0 <= i < r@.len() ==> (#[trigger] r@[i]).eval == -(popcount(
                legal_spec(r@[i].board.player(), r@[i].board.opponent()),
            ) as int),
        r@.len() > 2 ==> forall|i: int, j: int|
            #![trigger r@[i], r@[j]]
            0 <= i <= j < r@.len() ==> r@[i].eval >= r@[j].eval,
        forall|j: u64|
            j < 64 && #[trigger] crate::bit::bit64(legal_moves, j) ==> exists|i: int|
                0 <= i < r@.len() && (#[trigger] r@[i]).put_place == j,
{
    let mut put_boards = get_put_boards(board, legal_moves);
    let ghost parent = *board;
    let mut i: usize = 0;
    while i < put_boards.len()
        invariant
            i <= put_boards@.len(),
            put_boards@.len() == popcount(legal_moves),
            forall|j: int|
                0 <= j < put_boards@.len() ==> child_of(parent, legal_moves, #[trigger] put_boards@[j]),
            forall|j: int|
                0 <= j < i ==> (#[trigger] put_boards@[j]).eval == -(popcount(
                    legal_spec(put_boards@[j].board.player(), put_boards@[j].board.opponent()),
                ) as int),
            forall|j: u64|
                j < 64 && #[trigger] crate::bit::bit64(legal_moves, j) ==> exists|k: int|
                    0 <= k < put_boards@.len() && (#[trigger] put_boards@[k]).put_place == j,
        decreases put_boards@.len() - i,
    {
        proof {
            assert(child_of(parent, legal_moves, put_boards@[i as int]));
        }
        let ghost pre_boards = put_boards@;
        let child = put_boards[i].board;
        let child_legal = child.put_able();
        proof {
            lemma_popcount_le_64(child_legal);
        }
        let key = 0i32 - crate::bit::count_bits(child_legal) as i32;
        let old_pb = put_boards[i];
        put_boards[i] = PutBoard { eval: key, board: old_pb.board, put_place: old_pb.put_place };
        proof {
            assert forall|j: u64|
                j < 64 && #[trigger] crate::bit::bit64(legal_moves, j) implies exists|k: int|
                0 <= k < put_boards@.len() && (#[trigger] put_boards@[k]).put_place == j by {
                let k0 = choose|k: int|
                    0 <= k < pre_boards.len() && (#[trigger] pre_boards[k]).put_place == j;
                assert(put_boards@[k0].put_place == j);
            }
        }
        i += 1;
    }
    if put_boards.len() > 2 {
        let sorted = sort_put_boards_desc(put_boards);
        proof {
            assert forall|i: int| 0 <= i < sorted@.len() implies child_of(
                parent,
                legal_moves,
                #[trigger] sorted@[i],
            ) && (#[trigger] sorted@[i]).eval == -(popcount(
                legal_spec(sorted@[i].board.player(), sorted@[i].board.opponent()),
            ) as int) by {
                assert(put_boards@.contains(sorted@[i]));
                let j = choose|j: int| 0 <= j < put_boards@.len() && put_boards@[j] == sorted@[i];
                assert(child_of(parent, legal_moves, put_boards@[j]));
            }
            assert forall|j: u64|
                j < 64 && #[trigger] crate::bit::bit64(legal_moves, j) implies exists|i: int|
                0 <= i < sorted@.len() && (#[trigger] sorted@[i]).put_place == j by {
                let k0 = choose|k: int|
                    0 <= k < put_boards@.len() && (#[trigger] put_boards@[k]).put_place == j;
                assert(sorted@.contains(put_boards@[k0]));
                let i0 = choose|i: int| 0 <= i < sorted@.len() && sorted@[i] == put_boards@[k0];
                assert(sorted@[i0].put_place == j);
            }
        }
        return sorted;
    }
    put_boards
}

/// Answers a window query `[alpha, beta]` from the transposition table,
/// as the stored interval proves it: a score when the entry settles the
/// window, otherwise a narrowed window and no score. Entries computed at
/// another depth or selectivity are ignored.
pub fn t_table_cut_off(board: &Board, alpha: &mut i32, beta: &mut i32, lv: i32,
    selectivity_lv: i32, t_table: &TranspositionTable) -> (r: Option<i32>)
    requires
        board.wf(),
        t_table.wf(),
        *old(alpha) <= 127,
        *old(beta) >= -128,
    ensures
        ({
            let entry = t_table.get_spec(*board);
            if entry matches Some(t) && t.lv == lv && t.selectivity_lv == selectivity_lv {
                let t = entry->Some_0;
                if t.max <= *old(alpha) {
                    r == Some(t.max as i32) && *final(alpha) == *old(alpha) && *final(beta) == *old(
                        beta,
                    )
                } else if t.min >= *old(beta) {
                    r == Some(t.min as i32) && *final(alpha) == *old(alpha) && *final(beta) == *old(
                        beta,
                    )
                } else if t.max == t.min {
                    r == Some(t.max as i32) && *final(alpha) == *old(alpha) && *final(beta) == *old(
                        beta,
                    )
                } else {
                    r is None && *final(alpha) == (if t.min > *old(alpha) {
                        t.min as int
                    } else {
                        *old(alpha) as int
                    }) && *final(beta) == (if t.max < *old(beta) {
                        t.max as int
                    } else {
                        *old(beta) as int
                    })
                }
            } else {
                r is None && *final(alpha) == *old(alpha) && *final(beta) == *old(beta)
            }
        }),
        r matches Some(s) ==> -127 <= s && s <= 127,
        *old(alpha) <= *final(alpha),
        *final(beta) <= *old(beta),
        *old(alpha) <= *old(beta) ==> *final(alpha) <= *final(beta),
        *final(alpha) <= 127,
        *final(beta) >= -128,
{
    if let Some(t) = t_table.get(board) {
        if t.lv as i32 != lv || t.selectivity_lv as i32 != selectivity_lv {
            return None;
        }
        let max = t.max as i32;
        let min = t.min as i32;
        if max <= *alpha {
            return Some(max);
        } else if min >= *beta {
            return Some(min);
        } else if max == min {
            return Some(max);
        }
        if min > *alpha {
            *alpha = min;
        }
        if max < *beta {
            *beta = max;
        }
    }
    None
}

/// Candidates ordered by shallow search: each child keyed by the negated
/// score of a principal-variation probe `lv - 1` plies deep, best first; a
/// child remembered by the transposition table carries the top key, so
/// the sort ranks it with the best. The selectivity level is restored
/// afterward.
pub fn move_ordering_eval(board: &Board, legal_moves: u64, lv: i32, search: &mut Search) -> (r:
    Vec<PutBoard>)
    requires
        board.wf(),
        4 <= popcount(board.occupied()),
        legal_moves & board.occupied() == 0,
        0 <= lv,
        lv <= 60,
        old(search).wf(),
    ensures
        search_preserved(*old(search), *final(search)),
        r@.len() == popcount(legal_moves),
        forall|i: int| 0 <= i < r@.len() ==> child_of(*board, legal_moves, #[trigger] r@[i]),
        r@.len() > 2 ==> forall|i: int, j: int|
            #![trigger r@[i], r@[j]]
            0 <= i <= j < r@.len() ==> r@[i].eval >= r@[j].eval,
        forall|j: u64|
            j < 64 && #[trigger] crate::bit::bit64(legal_moves, j) ==> exists|i: int|
                0 <= i < r@.len() && (#[trigger] r@[i]).put_place == j,
        forall|i: int|
            0 <= i < r@.len() ==> -SCORE_INF <= (#[trigger] r@[i]).eval && r@[i].eval <= SCORE_INF,
        ({
            let tt = old(search).t_table.get_spec(*board);
            (tt matches Some(t) && t.best_move < 64) ==> forall|i: int|
                0 <= i < r@.len() && (#[trigger] r@[i]).put_place == tt->Some_0.best_move
                    ==> r@[i].eval == SCORE_INF
        }),
    decreases lv_rank(lv as int), 2int, 0int,
{
    let ghost tt = old(search).t_table.get_spec(*board);
    let tt_best_move: u64 = match search.t_table.get(board) {
        Some(t) => {
            if t.best_move < 64 {
                1u64 << t.best_move
            } else {
                0
            }
        },
        None => { 0 },
    };

    let mut put_boards = get_put_boards(board, legal_moves);
    let ghost parent = *board;
    let mut i: usize = 0;
    while i < put_boards.len()
        invariant
            board.wf(),
            parent == *board,
            4 <= popcount(board.occupied()),
            0 <= lv,
            lv <= 60,
            search.wf(),
            search_preserved(*old(search), *search),
            put_boards@.len() == popcount(legal_moves),
            tt == old(search).t_table.get_spec(*board),
            (tt matches Some(t) && t.best_move < 64) ==> tt_best_move == (1u64 << tt->Some_0.best_move),
            forall|j: int|
                0 <= j < put_boards@.len() ==> child_of(parent, legal_moves, #[trigger] put_boards@[j]),
            forall|j: u64|
                j < 64 && #[trigger] crate::bit::bit64(legal_moves, j) ==> exists|k: int|
                    0 <= k < put_boards@.len() && (#[trigger] put_boards@[k]).put_place == j,
            forall|j: int|
                0 <= j < i ==> -SCORE_INF <= (#[trigger] put_boards@[j]).eval
                    && put_boards@[j].eval <= SCORE_INF,
            (tt matches Some(t) && t.best_move < 64) ==> forall|j: int|
                0 <= j < i && (#[trigger] put_boards@[j]).put_place == tt->Some_0.best_move
                    ==> put_boards@[j].eval == SCORE_INF,
        decreases put_boards@.len() - i,
    {
        proof {
            assert(child_of(parent, legal_moves, put_boards@[i as int]));
            crate::bit::lemma_popcount_le_64(board.occupied());
        }
        let entry = put_boards[i];
        let put_mask: u64 = 1u64 << entry.put_place;
        let eval: i32 = if tt_best_move == put_mask {
            SCORE_INF
        } else {
            let main_search_selectivity_lv = search.selectivity_lv;
            let e = 0i32 - crate::eval_search::pvs_eval(
                &entry.board,
                0 - SCORE_INF,
                SCORE_INF,
                lv - 1,
                search,
            );
            search.selectivity_lv = main_search_selectivity_lv;
            e
        };
        let ghost pre_boards = put_boards@;
        put_boards[i] = PutBoard { eval, board: entry.board, put_place: entry.put_place };
        proof {
            assert forall|j: u64|
                j < 64 && #[trigger] crate::bit::bit64(legal_moves, j) implies exists|k: int|
                0 <= k < put_boards@.len() && (#[trigger] put_boards@[k]).put_place == j by {
                let k0 = choose|k: int|
                    0 <= k < pre_boards.len() && (#[trigger] pre_boards[k]).put_place == j;
                assert(put_boards@[k0].put_place == j);
            }
        }
        i += 1;
    }
    if put_boards.len() > 2 {
        let sorted = sort_put_boards_desc(put_boards);
        proof {
            assert forall|i: int| 0 <= i < sorted@.len() implies child_of(
                parent,
                legal_moves,
                #[trigger] sorted@[i],
            ) && -SCORE_INF <= sorted@[i].eval && sorted@[i].eval <= SCORE_INF && ((tt matches Some(
                t,
            ) && t.best_move < 64 && sorted@[i].put_place == t.best_move) ==> sorted@[i].eval
                == SCORE_INF) by {
                assert(put_boards@.contains(sorted@[i]));
                let j = choose|j: int| 0 <= j < put_boards@.len() && put_boards@[j] == sorted@[i];
                assert(child_of(parent, legal_moves, put_boards@[j]));
            }
            assert forall|j: u64|
                j < 64 && #[trigger] crate::bit::bit64(legal_moves, j) implies exists|i: int|
                0 <= i < sorted@.len() && (#[trigger] sorted@[i]).put_place == j by {
                let k0 = choose|k: int|
                    0 <= k < put_boards@.len() && (#[trigger] put_boards@[k]).put_place == j;
                assert(sorted@.contains(put_boards@[k0]));
                let i0 = choose|i: int| 0 <= i < sorted@.len() && sorted@[i] == put_boards@[k0];
                assert(sorted@[i0].put_place == j);
            }
        }
        return sorted;
    }
    put_boards
}

} // verus!
