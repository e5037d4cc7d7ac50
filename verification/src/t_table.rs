//! Transposition table: a single-slot-per-bucket cache of searched
//! positions, indexed by a Zobrist-style content hash of the two color
//! masks. Every lookup re-checks the stored board against the query, so a
//! colliding or evicted entry is never trusted.

use crate::board::Board;
use vstd::prelude::*;

verus! {

/// Number of buckets in the table.
pub const TABLE_SIZE: usize = 0x100000;

/// Number of seed values: one per 16-bit chunk value.
pub const RAND_TABLE_SIZE: usize = 0x10000;

/// One cached search result: the position it was computed for, the proven
/// score interval `[min, max]`, the depth and selectivity level of the
/// search that produced it, and the best move found.
#[derive(Clone, Copy)]
pub struct TableData {
    pub exists: bool,
    pub board: Board,
    pub max: i8,
    pub min: i8,
    pub lv: u8,
    pub selectivity_lv: u8,
    pub best_move: u8,
}

/// The same position: equal color masks and the same side to move.
pub open spec fn same_position(a: Board, b: Board) -> bool {
    a.bit_board[0] == b.bit_board[0] && a.bit_board[1] == b.bit_board[1] && a.next_turn
        == b.next_turn
}

impl TableData {
    /// An empty slot.
    pub fn make_blank() -> (r: TableData)
        ensures
            !r.exists,
    {
        TableData {
            exists: false,
            board: Board { bit_board: [0, 0], next_turn: 0 },
            max: 0,
            min: 0,
            lv: 0,
            selectivity_lv: 0,
            best_move: u8::MAX,
        }
    }
}

/// Relies on rand::rngs::ThreadRng (from rand::thread_rng) and
/// rand::Rng::gen_range over the range `0..n`: the drawn value is always
/// below `n`. Nothing more is assumed of the distribution.
#[verifier::external_body]
pub(crate) fn rand_below(n: u32) -> (r: u32)
    requires
        n > 0,
    ensures
        r < n,
{
    rand::Rng::gen_range(&mut rand::thread_rng(), 0..n)
}

pub struct TranspositionTable {
    pub table: Vec<TableData>,
    pub rand_table: Vec<u32>,
}

impl TranspositionTable {
    /// Shape invariant: full bucket and seed vectors, every seed below the
    /// bucket count.
    pub open spec fn wf(self) -> bool {
        self.table@.len() == TABLE_SIZE && self.rand_table@.len() == RAND_TABLE_SIZE && (forall|
            i: int,
        |
            0 <= i < RAND_TABLE_SIZE ==> #[trigger] self.rand_table@[i] < TABLE_SIZE as u32) && (
        forall|i: int|
            0 <= i < TABLE_SIZE ==> ((#[trigger] self.table@[i]).exists ==> -127
                <= self.table@[i].min && self.table@[i].min <= self.table@[i].max))
    }

    /// The bucket of a position: the eight 16-bit chunks of the two masks,
    /// each looked up in the seed table, all combined by exclusive or.
    pub open spec fn hash_spec(self, b: Board) -> int {
        let p = b.player();
        let o = b.opponent();
        (self.rand_table@[(p & 0xFFFF) as int] ^ self.rand_table@[((p >> 16) & 0xFFFF) as int]
            ^ self.rand_table@[((p >> 32) & 0xFFFF) as int] ^ self.rand_table@[((p >> 48)
            & 0xFFFF) as int] ^ self.rand_table@[((o >> 48) & 0xFFFF) as int]
            ^ self.rand_table@[((o >> 32) & 0xFFFF) as int] ^ self.rand_table@[((o >> 16)
            & 0xFFFF) as int] ^ self.rand_table@[(o & 0xFFFF) as int]) as int
    }

    /// What a lookup of `b` finds: the entry in `b`'s bucket, if it is
    /// occupied by exactly the position `b`.
    pub open spec fn get_spec(self, b: Board) -> Option<TableData> {
        let d = self.table@[self.hash_spec(b)];
        if d.exists && same_position(d.board, b) {
            Some(d)
        } else {
            None
        }
    }

    /// Builds an empty table with freshly drawn hash seeds: every bucket
    /// starts blank, whatever the seeds came out as.
    pub fn new() -> (r: TranspositionTable)
        ensures
            r.wf(),
            forall|i: int| 0 <= i < TABLE_SIZE ==> !(#[trigger] r.table@[i]).exists,
    {
        let mut table: Vec<TableData> = Vec::new();
        let mut i: usize = 0;
        while i < TABLE_SIZE
            invariant
                i <= TABLE_SIZE,
                table@.len() == i,
                forall|j: int| 0 <= j < i ==> !(#[trigger] table@[j]).exists,
            decreases TABLE_SIZE - i,
        {
            table.push(TableData::make_blank());
            i += 1;
        }
        let mut rand_table: Vec<u32> = Vec::new();
        let mut i: usize = 0;
        while i < RAND_TABLE_SIZE
            invariant
                i <= RAND_TABLE_SIZE,
                rand_table@.len() == i,
                forall|j: int| 0 <= j < i ==> #[trigger] rand_table@[j] < TABLE_SIZE as u32,
            decreases RAND_TABLE_SIZE - i,
        {
            rand_table.push(rand_below(TABLE_SIZE as u32));
            i += 1;
        }
        TranspositionTable { table, rand_table }
    }

    /// The bucket of a position.
    pub fn hash_board(&self, board: &Board) -> (r: usize)
        requires
            self.wf(),
            board.wf(),
        ensures
            r == self.hash_spec(*board),
            r < TABLE_SIZE,
    {
        let player_board_bit: u64 = board.bit_board[board.next_turn];
        let opponent_board_bit: u64 = board.bit_board[1 - board.next_turn];
        proof {
            let p = player_board_bit;
            let o = opponent_board_bit;
            assert((p & 0xFFFF) < 0x10000 && ((p >> 16) & 0xFFFF) < 0x10000 && ((p >> 32) & 0xFFFF)
                < 0x10000 && ((p >> 48) & 0xFFFF) < 0x10000 && (o & 0xFFFF) < 0x10000 && ((o >> 16)
                & 0xFFFF) < 0x10000 && ((o >> 32) & 0xFFFF) < 0x10000 && ((o >> 48) & 0xFFFF)
                < 0x10000) by (bit_vector);
        }
        let h: u32 = self.rand_table[(player_board_bit & 0xFFFF) as usize] ^ self.rand_table[((
        player_board_bit >> 16) & 0xFFFF) as usize] ^ self.rand_table[((player_board_bit >> 32)
            & 0xFFFF) as usize] ^ self.rand_table[((player_board_bit >> 48) & 0xFFFF) as usize]
            ^ self.rand_table[((opponent_board_bit >> 48) & 0xFFFF) as usize] ^ self.rand_table[((
        opponent_board_bit >> 32) & 0xFFFF) as usize] ^ self.rand_table[((opponent_board_bit >> 16)
            & 0xFFFF) as usize] ^ self.rand_table[(opponent_board_bit & 0xFFFF) as usize];
        proof {
            let a1 = self.rand_table@[(player_board_bit & 0xFFFF) as int];
            let a2 = self.rand_table@[((player_board_bit >> 16) & 0xFFFF) as int];
            let a3 = self.rand_table@[((player_board_bit >> 32) & 0xFFFF) as int];
            let a4 = self.rand_table@[((player_board_bit >> 48) & 0xFFFF) as int];
            let a5 = self.rand_table@[((opponent_board_bit >> 48) & 0xFFFF) as int];
            let a6 = self.rand_table@[((opponent_board_bit >> 32) & 0xFFFF) as int];
            let a7 = self.rand_table@[((opponent_board_bit >> 16) & 0xFFFF) as int];
            let a8 = self.rand_table@[(opponent_board_bit & 0xFFFF) as int];
            assert(a1 < 0x100000 && a2 < 0x100000 && a3 < 0x100000 && a4 < 0x100000 && a5
                < 0x100000 && a6 < 0x100000 && a7 < 0x100000 && a8 < 0x100000 ==> (a1 ^ a2 ^ a3
                ^ a4 ^ a5 ^ a6 ^ a7 ^ a8) < 0x100000) by (bit_vector);
        }
        h as usize
    }

    /// Stores a result for `board`, overwriting whatever occupied its
    /// bucket: a lookup of `board` now finds exactly this entry, and no
    /// bucket but `board`'s changes.
    pub fn add(&mut self, board: &Board, min: i32, max: i32, lv: i32, selectivity_lv: i32,
        best_move: u8)
        requires
            old(self).wf(),
            board.wf(),
            -127 <= min,
            min <= max,
            max <= i8::MAX,
            0 <= lv,
            lv <= u8::MAX,
            0 <= selectivity_lv,
            selectivity_lv <= u8::MAX,
        ensures
            final(self).wf(),
            final(self).rand_table == old(self).rand_table,
            final(self).get_spec(*board) matches Some(d) && d.board == *board && d.min == min
                && d.max == max && d.lv == lv && d.selectivity_lv == selectivity_lv && d.best_move
                == best_move,
            forall|i: int|
                0 <= i < TABLE_SIZE && i != old(self).hash_spec(*board)
                    ==> #[trigger] final(self).table@[i] == old(self).table@[i],
    {
        let index = self.hash_board(board);
        self.table[index] = TableData {
            exists: true,
            board: *board,
            max: max as i8,
            min: min as i8,
            lv: lv as u8,
            selectivity_lv: selectivity_lv as u8,
            best_move,
        };
    }

    /// Looks the position up: the entry of its bucket, only when that
    /// entry was stored for exactly this position.
    pub fn get(&self, board: &Board) -> (r: Option<TableData>)
        requires
            self.wf(),
            board.wf(),
        ensures
            r == self.get_spec(*board),
            r matches Some(d) ==> d.exists && same_position(d.board, *board) && -127 <= d.min && d.min
                <= d.max,
    {
        let index = self.hash_board(board);
        let x = &self.table[index];
        if !x.exists {
            return None;
        }
        if x.board.bit_board[0] == board.bit_board[0] && x.board.bit_board[1] == board.bit_board[1]
            && x.board.next_turn == board.next_turn {
            Some(*x)
        } else {
            None
        }
    }
}

} // verus!
