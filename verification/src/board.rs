//! Bitboard position type: two 64-bit color masks plus a side-to-move
//! indicator, with move generation and move application by masked
//! directional shift chains.

use crate::bit::count_bits;
use crate::bit::horizontal_mirror;
use crate::bit::horizontal_mirror_spec;
use crate::bit::lemma_popcount_disjoint_or;
use crate::bit::lemma_popcount_le_64;
use crate::bit::lemma_popcount_remove_subset;
use crate::bit::lemma_popcount_single_bit;
use crate::bit::popcount;
use crate::bit::transpose;
use crate::bit::transpose_spec;
use crate::bit::vertical_mirror;
use crate::bit::vertical_mirror_spec;
use vstd::prelude::*;
use vstd::string::StringExecFns;

verus! {

/// An 8x8 Othello position. `bit_board[0]` holds Black's stones,
/// `bit_board[1]` White's; bit `y * 8 + x` is the square in row `y`,
/// column `x`. `next_turn` names the side to move (0 or 1).
#[derive(Clone, Copy)]
pub struct Board {
    pub bit_board: [u64; 2],
    pub next_turn: usize,
}

/// Failure of an attempted move.
#[derive(Debug)]
pub enum PutPieceErr {
    /// The chosen square is not in the legal-move set of the side to move.
    NoValidPlacement,
    Unknown(String),
}

/// One saturating step of a masked directional fill toward higher bits.
pub open spec fn grow_shl(f: u64, m: u64, s: u64) -> u64 {
    f | ((f << s) & m)
}

/// One saturating step of a masked directional fill toward lower bits.
pub open spec fn grow_shr(f: u64, m: u64, s: u64) -> u64 {
    f | ((f >> s) & m)
}

/// Squares reachable from `x` by 1 to 6 steps of `+s`, every step staying
/// inside the mask `m`: the opponent-run fill used by the move generator.
pub open spec fn run6_shl(x: u64, m: u64, s: u64) -> u64 {
    let f0 = (x << s) & m;
    grow_shl(grow_shl(grow_shl(grow_shl(grow_shl(f0, m, s), m, s), m, s), m, s), m, s)
}

/// As `run6_shl`, stepping by `-s`.
pub open spec fn run6_shr(x: u64, m: u64, s: u64) -> u64 {
    let f0 = (x >> s) & m;
    grow_shr(grow_shr(grow_shr(grow_shr(grow_shr(f0, m, s), m, s), m, s), m, s), m, s)
}

/// The landing squares in direction `+s`: one step beyond an opponent run
/// that starts next to an own stone, landing on an empty square.
pub open spec fn moves_shl(p: u64, o: u64, em: u64, s: u64, blank: u64) -> u64 {
    (run6_shl(p, o & em, s) << s) & blank
}

/// As `moves_shl`, in direction `-s`.
pub open spec fn moves_shr(p: u64, o: u64, em: u64, s: u64, blank: u64) -> u64 {
    (run6_shr(p, o & em, s) >> s) & blank
}

/// Edge guard for horizontal walks: columns b through g.
pub open spec fn em_horizontal() -> u64 {
    0x7e7e7e7e7e7e7e7eu64
}

/// Edge guard for vertical walks: rows 2 through 8.
pub open spec fn em_vertical() -> u64 {
    0xffffffffffffff00u64
}

/// Edge guard for diagonal walks: the inner 6x6 block plus nothing of the
/// first and last rows and columns.
pub open spec fn em_diagonal() -> u64 {
    0x007e7e7e7e7e7e00u64
}

/// All legal landing squares for the side holding `p` against `o`: the
/// union of the eight directional walks.
pub open spec fn legal_spec(p: u64, o: u64) -> u64 {
    let blank = !(p | o);
    moves_shl(p, o, em_horizontal(), 1, blank) | moves_shr(p, o, em_horizontal(), 1, blank)
        | moves_shl(p, o, em_vertical(), 8, blank) | moves_shr(p, o, em_vertical(), 8, blank)
        | moves_shl(p, o, em_diagonal(), 7, blank) | moves_shr(p, o, em_diagonal(), 7, blank)
        | moves_shl(p, o, em_diagonal(), 9, blank) | moves_shr(p, o, em_diagonal(), 9, blank)
}

/// Opponent run reached from the placed stone `x` in direction `+s`, with a
/// seventh saturating step, kept only when an own stone terminates it.
pub open spec fn flips_shl(p: u64, o: u64, em: u64, s: u64, x: u64) -> u64 {
    let m = o & em;
    let f = grow_shl(run6_shl(x, m, s), m, s);
    if p & (f << s) != 0 {
        f
    } else {
        0
    }
}

/// As `flips_shl`, in direction `-s`.
pub open spec fn flips_shr(p: u64, o: u64, em: u64, s: u64, x: u64) -> u64 {
    let m = o & em;
    let f = grow_shr(run6_shr(x, m, s), m, s);
    if p & (f >> s) != 0 {
        f
    } else {
        0
    }
}

/// Every stone flipped by placing `x` for the side holding `p`: the union
/// of the eight directional runs that an own stone terminates.
pub open spec fn flip_spec(p: u64, o: u64, x: u64) -> u64 {
    flips_shl(p, o, em_horizontal(), 1, x) | flips_shr(p, o, em_horizontal(), 1, x) | flips_shl(
        p,
        o,
        em_vertical(),
        8,
        x,
    ) | flips_shr(p, o, em_vertical(), 8, x) | flips_shl(p, o, em_diagonal(), 7, x) | flips_shr(
        p,
        o,
        em_diagonal(),
        7,
        x,
    ) | flips_shl(p, o, em_diagonal(), 9, x) | flips_shr(p, o, em_diagonal(), 9, x)
}

/// No legal landing square is occupied.
pub proof fn lemma_legal_subset_blank(p: u64, o: u64)
    by (bit_vector)
    ensures
        legal_spec(p, o) & (p | o) == 0,
{
}

pub proof fn lemma_or_comm(a: u64, b: u64)
    by (bit_vector)
    ensures
        a | b == b | a,
{
}

pub proof fn lemma_and_comm(a: u64, b: u64)
    by (bit_vector)
    ensures
        a & b == b & a,
{
}

/// The flip set is a set of opponent stones, and never touches the placed
/// stone or an own stone.
pub proof fn lemma_flip_props(p: u64, o: u64, x: u64)
    by (bit_vector)
    requires
        p & o == 0,
        x & (p | o) == 0,
    ensures
        flip_spec(p, o, x) & o == flip_spec(p, o, x),
        flip_spec(p, o, x) & (p | x) == 0,
{
}

impl Board {
    /// Side index of Black, the first mover.
    pub const BLACK: usize = 0;

    /// Side index of White.
    pub const WHITE: usize = 1;

    /// Width of the board in squares.
    pub const BOARD_SIZE: i32 = 8;

    pub open spec fn black(self) -> u64 {
        self.bit_board[0]
    }

    pub open spec fn white(self) -> u64 {
        self.bit_board[1]
    }

    /// Mask of the side to move.
    pub open spec fn player(self) -> u64 {
        if self.next_turn == 0 {
            self.black()
        } else {
            self.white()
        }
    }

    /// Mask of the side not to move.
    pub open spec fn opponent(self) -> u64 {
        if self.next_turn == 0 {
            self.white()
        } else {
            self.black()
        }
    }

    pub open spec fn occupied(self) -> u64 {
        self.black() | self.white()
    }

    /// Structural invariant: a known side to move and disjoint color masks.
    pub open spec fn wf(self) -> bool {
        self.next_turn <= 1 && self.black() & self.white() == 0
    }

    /// The initial position: four stones around the center, Black to move.
    pub open spec fn initial_spec() -> Board {
        Board { bit_board: [0x0000000810000000u64, 0x0000001008000000u64], next_turn: 0 }
    }

    /// The position after the side to move passes.
    pub open spec fn passed(self) -> Board {
        Board { bit_board: self.bit_board, next_turn: (1 - self.next_turn as int) as usize }
    }

    /// The position after the side to move places a stone on `x`: the
    /// placed stone and the flipped runs join the mover's color, the
    /// flipped stones leave the opponent's, and the turn passes over.
    pub open spec fn apply_move_spec(self, x: u64) -> Board {
        let f = flip_spec(self.player(), self.opponent(), x);
        if self.next_turn == 0 {
            Board { bit_board: [(self.black() | x) ^ f, self.white() ^ f], next_turn: 1 }
        } else {
            Board { bit_board: [self.black() ^ f, (self.white() | x) ^ f], next_turn: 0 }
        }
    }
}

/// What placing a single stone on an empty square does to the position:
/// the masks stay disjoint, the stone total grows by one, the mover gains
/// the placed stone plus every flipped stone, and the opponent loses
/// exactly the flipped stones. These are the facts behind the board
/// invariant and the disc-count law.
pub proof fn lemma_apply_move_props(b: Board, x: u64)
    requires
        b.wf(),
        x & b.occupied() == 0,
        x != 0,
        x & vstd::prelude::sub(x, 1) == 0,
    ensures
        b.apply_move_spec(x).wf(),
        b.apply_move_spec(x).next_turn == 1 - b.next_turn,
        b.apply_move_spec(x).opponent() == b.player() | x | flip_spec(b.player(), b.opponent(), x),
        b.apply_move_spec(x).player() == b.opponent() ^ flip_spec(b.player(), b.opponent(), x),
        b.apply_move_spec(x).occupied() == b.occupied() | x,
        popcount(b.apply_move_spec(x).occupied()) == popcount(b.occupied()) + 1,
        popcount(b.apply_move_spec(x).opponent()) == popcount(b.player()) + 1 + popcount(
            flip_spec(b.player(), b.opponent(), x),
        ),
        popcount(b.apply_move_spec(x).player()) == popcount(b.opponent()) - popcount(
            flip_spec(b.player(), b.opponent(), x),
        ),
{
    let p = b.player();
    let o = b.opponent();
    lemma_popcount_single_bit(x);
    lemma_or_comm(p, o);
    lemma_and_comm(p, o);
    lemma_flip_props(p, o, x);
    let f = flip_spec(p, o, x);
    assert((p & o == 0 && x & (p | o) == 0 && f & o == f && f & (p | x) == 0) ==> (((p | x) ^ f) == (
    p | x | f)) && ((p | x | f) & (o ^ f) == 0) && ((o ^ f) | (p | x | f)) == ((p | o) | x) && ((p
        | x) & f == 0) && (p & x == 0) && (o & f == f) && ((p | o) & x == 0) && ((p | x | f) & (o
        ^ f)) == 0) by (bit_vector);
    lemma_popcount_remove_subset(o, f);
    lemma_popcount_disjoint_or(p, x);
    lemma_popcount_disjoint_or(p | x, f);
    lemma_popcount_disjoint_or(p | o, x);
    assert((p & o == 0 && f & o == f && f & (p | x) == 0 && x & (p | o) == 0) ==> ((p | x | f) | (o
        ^ f)) == ((p | o) | x) && (p & f == 0) && ((o ^ f) & (p | x | f)) == 0) by (bit_vector);
}

/// The initial position is well formed and holds exactly four stones.
pub proof fn lemma_initial_board()
    ensures
        Board::initial_spec().wf(),
        popcount(Board::initial_spec().occupied()) == 4,
        Board::initial_spec().player() == 0x0000000810000000u64,
{
    assert(0x0000000810000000u64 & 0x0000001008000000u64 == 0 && (0x0000000810000000u64
        | 0x0000001008000000u64) == ((1u64 << 28) | ((1u64 << 35) | ((1u64 << 27) | (1u64 << 36))))
        && (1u64 << 28) & ((1u64 << 35) | ((1u64 << 27) | (1u64 << 36))) == 0 && (1u64 << 35) & ((
    1u64 << 27) | (1u64 << 36)) == 0 && (1u64 << 27) & (1u64 << 36) == 0) by (bit_vector);
    assert((1u64 << 28) != 0 && (1u64 << 28) & vstd::prelude::sub(1u64 << 28, 1) == 0 && (1u64
        << 35) != 0 && (1u64 << 35) & vstd::prelude::sub(1u64 << 35, 1) == 0 && (1u64 << 27) != 0
        && (1u64 << 27) & vstd::prelude::sub(1u64 << 27, 1) == 0 && (1u64 << 36) != 0 && (1u64
        << 36) & vstd::prelude::sub(1u64 << 36, 1) == 0) by (bit_vector);
    lemma_popcount_single_bit(1u64 << 28);
    lemma_popcount_single_bit(1u64 << 35);
    lemma_popcount_single_bit(1u64 << 27);
    lemma_popcount_single_bit(1u64 << 36);
    lemma_popcount_disjoint_or(1u64 << 27, 1u64 << 36);
    lemma_popcount_disjoint_or(1u64 << 35, (1u64 << 27) | (1u64 << 36));
    lemma_popcount_disjoint_or(1u64 << 28, (1u64 << 35) | ((1u64 << 27) | (1u64 << 36)));
}

/// Six saturating masked fill steps toward higher bits, as the move
/// generator walks an opponent run.
fn fill6_shl(x: u64, m: u64, s: u64) -> (r: u64)
    requires
        s < 64,
    ensures
        r == run6_shl(x, m, s),
{
    let mut f = (x << s) & m;
    f |= (f << s) & m;
    f |= (f << s) & m;
    f |= (f << s) & m;
    f |= (f << s) & m;
    f |= (f << s) & m;
    f
}

/// As `fill6_shl`, toward lower bits.
fn fill6_shr(x: u64, m: u64, s: u64) -> (r: u64)
    requires
        s < 64,
    ensures
        r == run6_shr(x, m, s),
{
    let mut f = (x >> s) & m;
    f |= (f >> s) & m;
    f |= (f >> s) & m;
    f |= (f >> s) & m;
    f |= (f >> s) & m;
    f |= (f >> s) & m;
    f
}

/// Seven saturating masked fill steps toward higher bits, as the flip
/// computation walks an opponent run from the placed stone.
fn fill7_shl(x: u64, m: u64, s: u64) -> (r: u64)
    requires
        s < 64,
    ensures
        r == grow_shl(run6_shl(x, m, s), m, s),
{
    let f = fill6_shl(x, m, s);
    f | ((f << s) & m)
}

/// As `fill7_shl`, toward lower bits.
fn fill7_shr(x: u64, m: u64, s: u64) -> (r: u64)
    requires
        s < 64,
    ensures
        r == grow_shr(run6_shr(x, m, s), m, s),
{
    let f = fill6_shr(x, m, s);
    f | ((f >> s) & m)
}

impl Board {
    /// Builds the initial four-stone position, Black to move.
    pub fn new() -> (r: Board)
        ensures
            r == Board::initial_spec(),
            r.wf(),
            popcount(r.occupied()) == 4,
    {
        proof {
            lemma_initial_board();
        }
        Board { bit_board: [0x0000000810000000u64, 0x0000001008000000u64], next_turn: 0 }
    }

    /// Resets the position to the initial four-stone position.
    pub fn clear(&mut self)
        ensures
            *final(self) == Board::initial_spec(),
            final(self).wf(),
    {
        proof {
            lemma_initial_board();
        }
        self.bit_board = [0x0000000810000000u64, 0x0000001008000000u64];
        self.next_turn = 0;
    }

    /// Legal landing squares for the side to move.
    pub fn put_able(&self) -> (r: u64)
        requires
            self.wf(),
        ensures
            r == legal_spec(self.player(), self.opponent()),
            r & self.occupied() == 0,
    {
        proof {
            lemma_legal_subset_blank(self.player(), self.opponent());
            lemma_or_comm(self.player(), self.opponent());
        }
        let blank = !(self.bit_board[0] | self.bit_board[1]);
        let p: u64 = self.bit_board[self.next_turn];
        let o: u64 = self.bit_board[1 - self.next_turn];

        let mh = o & 0x7e7e7e7e7e7e7e7eu64;
        let mv = o & 0xffffffffffffff00u64;
        let md = o & 0x007e7e7e7e7e7e00u64;

        let mut legal_moves: u64 = (fill6_shl(p, mh, 1) << 1) & blank;
        legal_moves |= (fill6_shr(p, mh, 1) >> 1) & blank;
        legal_moves |= (fill6_shl(p, mv, 8) << 8) & blank;
        legal_moves |= (fill6_shr(p, mv, 8) >> 8) & blank;
        legal_moves |= (fill6_shl(p, md, 7) << 7) & blank;
        legal_moves |= (fill6_shr(p, md, 7) >> 7) & blank;
        legal_moves |= (fill6_shl(p, md, 9) << 9) & blank;
        legal_moves |= (fill6_shr(p, md, 9) >> 9) & blank;

        legal_moves
    }

    /// Legal landing squares for the side not to move.
    pub fn opponent_put_able(&self) -> (r: u64)
        requires
            self.wf(),
        ensures
            r == legal_spec(self.opponent(), self.player()),
            r == legal_spec(self.passed().player(), self.passed().opponent()),
    {
        let blank = !(self.bit_board[0] | self.bit_board[1]);
        let p: u64 = self.bit_board[1 - self.next_turn];
        let o: u64 = self.bit_board[self.next_turn];
        proof {
            lemma_or_comm(p, o);
        }

        let mh = o & 0x7e7e7e7e7e7e7e7eu64;
        let mv = o & 0xffffffffffffff00u64;
        let md = o & 0x007e7e7e7e7e7e00u64;

        let mut legal_moves: u64 = (fill6_shl(p, mh, 1) << 1) & blank;
        legal_moves |= (fill6_shr(p, mh, 1) >> 1) & blank;
        legal_moves |= (fill6_shl(p, mv, 8) << 8) & blank;
        legal_moves |= (fill6_shr(p, mv, 8) >> 8) & blank;
        legal_moves |= (fill6_shl(p, md, 7) << 7) & blank;
        legal_moves |= (fill6_shr(p, md, 7) >> 7) & blank;
        legal_moves |= (fill6_shl(p, md, 9) << 9) & blank;
        legal_moves |= (fill6_shr(p, md, 9) >> 9) & blank;

        legal_moves
    }

    /// Stones flipped by placing `x` for the side to move, per the eight
    /// directional runs terminated by an own stone.
    pub fn flip_bit(&self, x: u64) -> (r: u64)
        requires
            self.wf(),
        ensures
            r == flip_spec(self.player(), self.opponent(), x),
    {
        let p: u64 = self.bit_board[self.next_turn];
        let o: u64 = self.bit_board[1 - self.next_turn];

        let mh = o & 0x7e7e7e7e7e7e7e7eu64;
        let mv = o & 0xffffffffffffff00u64;
        let md = o & 0x007e7e7e7e7e7e00u64;

        let f1 = fill7_shl(x, mh, 1);
        let mut flip: u64 = if p & (f1 << 1) != 0 {
            f1
        } else {
            0
        };
        let f2 = fill7_shr(x, mh, 1);
        flip |= if p & (f2 >> 1) != 0 {
            f2
        } else {
            0
        };
        let f3 = fill7_shl(x, mv, 8);
        flip |= if p & (f3 << 8) != 0 {
            f3
        } else {
            0
        };
        let f4 = fill7_shr(x, mv, 8);
        flip |= if p & (f4 >> 8) != 0 {
            f4
        } else {
            0
        };
        let f5 = fill7_shl(x, md, 7);
        flip |= if p & (f5 << 7) != 0 {
            f5
        } else {
            0
        };
        let f6 = fill7_shr(x, md, 7);
        flip |= if p & (f6 >> 7) != 0 {
            f6
        } else {
            0
        };
        let f7 = fill7_shl(x, md, 9);
        flip |= if p & (f7 << 9) != 0 {
            f7
        } else {
            0
        };
        let f8 = fill7_shr(x, md, 9);
        flip |= if p & (f8 >> 9) != 0 {
            f8
        } else {
            0
        };

        flip
    }

    /// Places a single stone on an empty square for the side to move,
    /// flips the captured runs, and hands the turn over. The placed square
    /// need not be legal; an illegal placement flips nothing.
    #[verifier::rlimit(50)]
    pub fn put_piece_fast(&mut self, put_mask: u64)
        requires
            old(self).wf(),
            put_mask & old(self).occupied() == 0,
            put_mask != 0,
            put_mask & vstd::prelude::sub(put_mask, 1) == 0,
        ensures
            final(self).wf(),
            final(self).next_turn == 1 - old(self).next_turn,
            final(self).opponent() == old(self).player() | put_mask | flip_spec(
                old(self).player(),
                old(self).opponent(),
                put_mask,
            ),
            final(self).player() == old(self).opponent() ^ flip_spec(
                old(self).player(),
                old(self).opponent(),
                put_mask,
            ),
            final(self).occupied() == old(self).occupied() | put_mask,
            popcount(final(self).occupied()) == popcount(old(self).occupied()) + 1,
            popcount(final(self).opponent()) == popcount(old(self).player()) + 1 + popcount(
                flip_spec(old(self).player(), old(self).opponent(), put_mask),
            ),
            popcount(final(self).player()) == popcount(old(self).opponent()) - popcount(
                flip_spec(old(self).player(), old(self).opponent(), put_mask),
            ),
            *final(self) == old(self).apply_move_spec(put_mask),
    {
        let reverse_bit = self.flip_bit(put_mask);
        proof {
            lemma_apply_move_props(*self, put_mask);
        }
        let t = self.next_turn;
        let b0 = self.bit_board[0];
        let b1 = self.bit_board[1];
        if t == 0 {
            self.bit_board = [(b0 | put_mask) ^ reverse_bit, b1 ^ reverse_bit];
        } else {
            self.bit_board = [b0 ^ reverse_bit, (b1 | put_mask) ^ reverse_bit];
        }
        self.next_turn = 1 - t;
    }

    /// Plays `put_mask` for the side to move when it is legal; otherwise
    /// reports `NoValidPlacement` and leaves the position unchanged.
    pub fn put_piece(&mut self, put_mask: u64) -> (r: Result<(), PutPieceErr>)
        requires
            old(self).wf(),
            put_mask != 0,
            put_mask & vstd::prelude::sub(put_mask, 1) == 0,
        ensures
            final(self).wf(),
            r is Ok <==> legal_spec(old(self).player(), old(self).opponent()) & put_mask != 0,
            r is Err ==> *final(self) == *old(self) && (r matches Err(e) && e is NoValidPlacement),
            r is Ok ==> final(self).next_turn == 1 - old(self).next_turn && final(self).opponent()
                == old(self).player() | put_mask | flip_spec(
                old(self).player(),
                old(self).opponent(),
                put_mask,
            ) && final(self).player() == old(self).opponent() ^ flip_spec(
                old(self).player(),
                old(self).opponent(),
                put_mask,
            ) && popcount(final(self).occupied()) == popcount(old(self).occupied()) + 1
                && *final(self) == old(self).apply_move_spec(put_mask),
    {
        let legal = self.put_able();
        if legal & put_mask == 0 {
            return Err(PutPieceErr::NoValidPlacement);
        }
        proof {
            let pm = put_mask;
            let l = legal_spec(old(self).player(), old(self).opponent());
            let occ = old(self).occupied();
            assert(l & occ == 0 && l & pm != 0 && pm & vstd::prelude::sub(pm, 1) == 0 ==> pm & occ
                == 0) by (bit_vector);
        }
        self.put_piece_fast(put_mask);
        Ok(())
    }

    /// Plays the stone on row `y`, column `x` when that square is legal.
    pub fn put_piece_from_coord(&mut self, y: i32, x: i32) -> (r: Result<(), PutPieceErr>)
        requires
            old(self).wf(),
            0 <= y < 8,
            0 <= x < 8,
        ensures
            final(self).wf(),
            r is Ok <==> legal_spec(old(self).player(), old(self).opponent()) & (1u64 << (y * 8 + x))
                != 0,
            r is Ok ==> *final(self) == old(self).apply_move_spec(1u64 << (y * 8 + x)),
            r is Err ==> *final(self) == *old(self),
    {
        let shift: u64 = (y * 8 + x) as u64;
        let mask: u64 = 1u64 << shift;
        proof {
            crate::bit::lemma_shift_single(shift);
        }
        self.put_piece(mask)
    }

    /// Total stones on the board.
    pub fn piece_count(&self) -> (r: i32)
        ensures
            r == popcount(self.occupied()),
            0 <= r <= 64,
    {
        proof {
            lemma_popcount_le_64(self.occupied());
        }
        count_bits(self.bit_board[0] | self.bit_board[1]) as i32
    }

    /// Empty squares left on the board.
    pub fn empties_count(&self) -> (r: i32)
        ensures
            r == 64 - popcount(self.occupied()),
            0 <= r <= 64,
    {
        proof {
            lemma_popcount_le_64(self.occupied());
        }
        64 - count_bits(self.bit_board[0] | self.bit_board[1]) as i32
    }

    /// Moves played so far: stones beyond the initial four.
    pub fn move_count(&self) -> (r: i32)
        ensures
            r == popcount(self.occupied()) - 4,
    {
        proof {
            lemma_popcount_le_64(self.occupied());
        }
        count_bits(self.bit_board[0] | self.bit_board[1]) as i32 - 4
    }
}

/// A symmetry transform keeps the two color masks disjoint.
pub proof fn lemma_transforms_preserve_disjoint(a: u64, b: u64)
    by (bit_vector)
    requires
        a & b == 0,
    ensures
        transpose_spec(a) & transpose_spec(b) == 0,
        vertical_mirror_spec(a) & vertical_mirror_spec(b) == 0,
        horizontal_mirror_spec(a) & horizontal_mirror_spec(b) == 0,
{
}

impl Board {
    /// Both masks reflected across the vertical axis.
    pub open spec fn mirrored_h(self) -> Board {
        Board {
            bit_board: [
                horizontal_mirror_spec(self.bit_board[0]),
                horizontal_mirror_spec(self.bit_board[1]),
            ],
            next_turn: self.next_turn,
        }
    }

    /// Both masks reflected across the horizontal axis.
    pub open spec fn mirrored_v(self) -> Board {
        Board {
            bit_board: [
                vertical_mirror_spec(self.bit_board[0]),
                vertical_mirror_spec(self.bit_board[1]),
            ],
            next_turn: self.next_turn,
        }
    }

    /// Both masks reflected across the main diagonal.
    pub open spec fn transposed(self) -> Board {
        Board {
            bit_board: [transpose_spec(self.bit_board[0]), transpose_spec(self.bit_board[1])],
            next_turn: self.next_turn,
        }
    }

    /// The symmetric image selected by the three bits of `i`: horizontal
    /// mirror, then vertical mirror, then transpose.
    pub open spec fn symmetry_spec(self, i: int) -> Board {
        let s1 = if i % 2 == 1 {
            self.mirrored_h()
        } else {
            self
        };
        let s2 = if (i / 2) % 2 == 1 {
            s1.mirrored_v()
        } else {
            s1
        };
        if i / 4 == 1 {
            s2.transposed()
        } else {
            s2
        }
    }

    /// All eight symmetric images of the position, ordered by the bit
    /// combination of the three transforms.
    pub fn get_all_symmetries(&self) -> (r: Vec<Board>)
        requires
            self.wf(),
        ensures
            r@.len() == 8,
            forall|i: int| 0 <= i < 8 ==> #[trigger] r@[i] == self.symmetry_spec(i) && r@[i].wf(),
    {
        let mut symmetries: Vec<Board> = Vec::new();
        let mut i: usize = 0;
        while i < 8
            invariant
                self.wf(),
                i <= 8,
                symmetries@.len() == i,
                forall|j: int| 0 <= j < i ==> #[trigger] symmetries@[j] == self.symmetry_spec(j)
                    && symmetries@[j].wf(),
            decreases 8 - i,
        {
            let mut sym = *self;
            if i % 2 == 1 {
                proof {
                    lemma_transforms_preserve_disjoint(sym.bit_board[0], sym.bit_board[1]);
                }
                sym = Board {
                    bit_board: [
                        horizontal_mirror(sym.bit_board[0]),
                        horizontal_mirror(sym.bit_board[1]),
                    ],
                    next_turn: sym.next_turn,
                };
            }
            if (i / 2) % 2 == 1 {
                proof {
                    lemma_transforms_preserve_disjoint(sym.bit_board[0], sym.bit_board[1]);
                }
                sym = Board {
                    bit_board: [
                        vertical_mirror(sym.bit_board[0]),
                        vertical_mirror(sym.bit_board[1]),
                    ],
                    next_turn: sym.next_turn,
                };
            }
            if i / 4 == 1 {
                proof {
                    lemma_transforms_preserve_disjoint(sym.bit_board[0], sym.bit_board[1]);
                }
                sym = Board {
                    bit_board: [transpose(sym.bit_board[0]), transpose(sym.bit_board[1])],
                    next_turn: sym.next_turn,
                };
            }
            symmetries.push(sym);
            i += 1;
        }
        symmetries
    }

    /// The four rotations of the position: identity, then 90, 180 and 270
    /// degrees, each built from mirrors and the transpose.
    pub fn get_all_rotations(&self) -> (r: Vec<Board>)
        requires
            self.wf(),
        ensures
            r@.len() == 4,
            r@[0] == *self,
            r@[1] == self.mirrored_v().transposed(),
            r@[2] == self.mirrored_v().mirrored_h(),
            r@[3] == self.mirrored_h().transposed(),
            forall|i: int| 0 <= i < 4 ==> #[trigger] r@[i].wf(),
    {
        let mut rotations: Vec<Board> = Vec::new();

        rotations.push(*self);

        proof {
            lemma_transforms_preserve_disjoint(self.bit_board[0], self.bit_board[1]);
            lemma_transforms_preserve_disjoint(
                vertical_mirror_spec(self.bit_board[0]),
                vertical_mirror_spec(self.bit_board[1]),
            );
            lemma_transforms_preserve_disjoint(
                horizontal_mirror_spec(self.bit_board[0]),
                horizontal_mirror_spec(self.bit_board[1]),
            );
        }
        let b90 = Board {
            bit_board: [
                transpose(vertical_mirror(self.bit_board[0])),
                transpose(vertical_mirror(self.bit_board[1])),
            ],
            next_turn: self.next_turn,
        };
        rotations.push(b90);

        let b180 = Board {
            bit_board: [
                horizontal_mirror(vertical_mirror(self.bit_board[0])),
                horizontal_mirror(vertical_mirror(self.bit_board[1])),
            ],
            next_turn: self.next_turn,
        };
        rotations.push(b180);

        let b270 = Board {
            bit_board: [
                transpose(horizontal_mirror(self.bit_board[0])),
                transpose(horizontal_mirror(self.bit_board[1])),
            ],
            next_turn: self.next_turn,
        };
        rotations.push(b270);

        rotations
    }
}

/// File letter of a board column.
pub open spec fn file_char(j: u64) -> char {
    if j == 0 {
        'a'
    } else if j == 1 {
        'b'
    } else if j == 2 {
        'c'
    } else if j == 3 {
        'd'
    } else if j == 4 {
        'e'
    } else if j == 5 {
        'f'
    } else if j == 6 {
        'g'
    } else {
        'h'
    }
}

/// Rank digit of a board row.
pub open spec fn rank_char(j: u64) -> char {
    if j == 0 {
        '1'
    } else if j == 1 {
        '2'
    } else if j == 2 {
        '3'
    } else if j == 3 {
        '4'
    } else if j == 4 {
        '5'
    } else if j == 5 {
        '6'
    } else if j == 6 {
        '7'
    } else {
        '8'
    }
}

impl Board {
    /// Writes a single-bit move mask in coordinate notation, file letter
    /// then rank digit. A mask that is not one single bit is refused.
    pub fn move_bit_to_str(bit: u64) -> (r: Result<String, String>)
        ensures
            r is Ok <==> (bit != 0 && bit & vstd::prelude::sub(bit, 1) == 0),
            forall|j: u64| j < 64 && bit == (1u64 << j) ==> (r matches Ok(s) && s@.len() == 2
                && s@[0] == file_char(j % 8) && s@[1] == rank_char(j / 8)),
    {
        proof {
            assert forall|j: u64| j < 64 implies (1u64 << j) != 0 by {
                crate::bit::lemma_shift_single(j);
            }
        }
        if bit == 0 || bit & (bit - 1) != 0 {
            proof {
                assert forall|j: u64| j < 64 && bit == (1u64 << j) implies bit
                    & vstd::prelude::sub(bit, 1) == 0 by {
                    crate::bit::lemma_shift_single(j);
                }
            }
            return Err("the mask is not a single move bit".to_owned());
        }
        let idx: u32 = bit.trailing_zeros();
        proof {
            broadcast use vstd::std_specs::bits::axiom_u64_trailing_zeros;

            let t = vstd::std_specs::bits::u64_trailing_zeros(bit) as u64;
            assert(t < 64);
            crate::bit::lemma_single_bit_index(bit, t);
        }
        let x: u32 = idx % 8;
        let y: u32 = idx / 8;
        let file: &str = match x {
            0 => "a",
            1 => "b",
            2 => "c",
            3 => "d",
            4 => "e",
            5 => "f",
            6 => "g",
            _ => "h",
        };
        let rank: &str = match y {
            0 => "1",
            1 => "2",
            2 => "3",
            3 => "4",
            4 => "5",
            5 => "6",
            6 => "7",
            _ => "8",
        };
        proof {
            reveal_strlit("a");
            reveal_strlit("b");
            reveal_strlit("c");
            reveal_strlit("d");
            reveal_strlit("e");
            reveal_strlit("f");
            reveal_strlit("g");
            reveal_strlit("h");
            reveal_strlit("1");
            reveal_strlit("2");
            reveal_strlit("3");
            reveal_strlit("4");
            reveal_strlit("5");
            reveal_strlit("6");
            reveal_strlit("7");
            reveal_strlit("8");
        }
        let mut s = file.to_owned();
        s.append(rank);
        Ok(s)
    }
}

/// One step of a replayed game: move mask `0` stands for a pass.
pub open spec fn step_spec(b: Board, x: u64) -> Board {
    if x == 0 {
        b.passed()
    } else {
        b.apply_move_spec(x)
    }
}

/// Each entry of `moves` is, in turn, either a pass or a single-bit move
/// inside the legal-move set of the side then to move.
pub open spec fn moves_legal(b: Board, moves: Seq<u64>) -> bool
    decreases moves.len(),
{
    moves.len() == 0 || {
        let x = moves[0];
        (x == 0 || (x & vstd::prelude::sub(x, 1) == 0 && legal_spec(b.player(), b.opponent()) & x
            == x)) && moves_legal(step_spec(b, x), moves.subrange(1, moves.len() as int))
    }
}

/// The position after replaying `moves` from `b`.
pub open spec fn play_spec(b: Board, moves: Seq<u64>) -> Board
    decreases moves.len(),
{
    if moves.len() == 0 {
        b
    } else {
        play_spec(step_spec(b, moves[0]), moves.subrange(1, moves.len() as int))
    }
}

/// A reachable position: one that some legal sequence of moves and passes
/// produces from the initial position.
pub open spec fn reachable(b: Board) -> bool {
    exists|moves: Seq<u64>|
        moves_legal(Board::initial_spec(), moves) && b == play_spec(Board::initial_spec(), moves)
}

proof fn lemma_play_preserves_sound(b: Board, moves: Seq<u64>)
    requires
        b.wf(),
        4 <= popcount(b.occupied()),
        moves_legal(b, moves),
    ensures
        play_spec(b, moves).wf(),
        4 <= popcount(play_spec(b, moves).occupied()),
    decreases moves.len(),
{
    if moves.len() > 0 {
        let x = moves[0];
        let b2 = step_spec(b, x);
        if x != 0 {
            lemma_legal_subset_blank(b.player(), b.opponent());
            lemma_or_comm(b.player(), b.opponent());
            let l = legal_spec(b.player(), b.opponent());
            let occ = b.occupied();
            assert(l & occ == 0 && l & x == x ==> x & occ == 0) by (bit_vector);
            lemma_apply_move_props(b, x);
        }
        lemma_play_preserves_sound(b2, moves.subrange(1, moves.len() as int));
    }
}

/// Every reachable position keeps the two color masks disjoint and holds
/// between 4 and 64 stones.
pub proof fn lemma_reachable_board_sound(b: Board)
    requires
        reachable(b),
    ensures
        b.wf(),
        b.player() & b.opponent() == 0,
        4 <= popcount(b.occupied()),
        popcount(b.occupied()) <= 64,
{
    let moves = choose|moves: Seq<u64>|
        moves_legal(Board::initial_spec(), moves) && b == play_spec(Board::initial_spec(), moves);
    lemma_initial_board();
    lemma_play_preserves_sound(Board::initial_spec(), moves);
    lemma_popcount_le_64(b.occupied());
    lemma_and_comm(b.player(), b.opponent());
}

/// The far end of a run of `k` opponent-guard squares that begins next to
/// a stone of `p`, walking `k` steps of `+s` inside the mask `m`.
pub open spec fn run_at_shl(p: u64, m: u64, s: u64, k: nat) -> u64
    decreases k,
{
    if k <= 1 {
        (p << s) & m
    } else {
        (run_at_shl(p, m, s, (k - 1) as nat) << s) & m
    }
}

/// As `run_at_shl`, walking `k` steps of `-s`.
pub open spec fn run_at_shr(p: u64, m: u64, s: u64, k: nat) -> u64
    decreases k,
{
    if k <= 1 {
        (p >> s) & m
    } else {
        (run_at_shr(p, m, s, (k - 1) as nat) >> s) & m
    }
}

/// Empty squares one step of `+s` beyond a `k`-long opponent run that
/// begins next to an own stone: the landing squares of one directional
/// walk of exactly `k` captures.
pub open spec fn land_shl(p: u64, o: u64, em: u64, s: u64, k: nat) -> u64 {
    (run_at_shl(p, o & em, s, k) << s) & !(p | o)
}

/// As `land_shl`, in direction `-s`.
pub open spec fn land_shr(p: u64, o: u64, em: u64, s: u64, k: nat) -> u64 {
    (run_at_shr(p, o & em, s, k) >> s) & !(p | o)
}

proof fn lemma_shl_or_distr(a: u64, b: u64, s: u64, m: u64)
    by (bit_vector)
    ensures
        (((a | b) << s) & m) == (((a << s) & m) | ((b << s) & m)),
{
}

proof fn lemma_shr_or_distr(a: u64, b: u64, s: u64, m: u64)
    by (bit_vector)
    ensures
        (((a | b) >> s) & m) == (((a >> s) & m) | ((b >> s) & m)),
{
}

/// The six-step fill is exactly the union of the runs of length one
/// through six.
proof fn lemma_run6_shl_decomposes(x: u64, m: u64, s: u64)
    ensures
        run6_shl(x, m, s) == run_at_shl(x, m, s, 1) | run_at_shl(x, m, s, 2) | run_at_shl(
            x,
            m,
            s,
            3,
        ) | run_at_shl(x, m, s, 4) | run_at_shl(x, m, s, 5) | run_at_shl(x, m, s, 6),
{
    let s1 = run_at_shl(x, m, s, 1);
    let s2 = run_at_shl(x, m, s, 2);
    let s3 = run_at_shl(x, m, s, 3);
    let s4 = run_at_shl(x, m, s, 4);
    let s5 = run_at_shl(x, m, s, 5);
    let s6 = run_at_shl(x, m, s, 6);
    let f0 = (x << s) & m;
    let f1 = grow_shl(f0, m, s);
    let f2 = grow_shl(f1, m, s);
    let f3 = grow_shl(f2, m, s);
    let f4 = grow_shl(f3, m, s);
    let f5 = grow_shl(f4, m, s);
    assert(f1 == s1 | s2);
    lemma_shl_or_distr(s1, s2, s, m);
    assert(f2 == (s1 | s2) | (s2 | s3));
    lemma_shl_or_distr(s1 | s2, s3, s, m);
    lemma_shl_or_distr((s1 | s2) | s3, s4, s, m);
    lemma_shl_or_distr(((s1 | s2) | s3) | s4, s5, s, m);
    assert((s1 | s2) | (s2 | s3) == (s1 | s2) | s3 && ((s1 | s2) | s3) | ((s2 | s3) | s4) == ((s1
        | s2) | s3) | s4 && (((s1 | s2) | s3) | s4) | (((s2 | s3) | s4) | s5) == (((s1 | s2) | s3)
        | s4) | s5 && ((((s1 | s2) | s3) | s4) | s5) | ((((s2 | s3) | s4) | s5) | s6) == ((((s1
        | s2) | s3) | s4) | s5) | s6) by (bit_vector);
    assert(f3 == ((s1 | s2) | s3) | ((s2 | s3) | s4));
    assert(f4 == (((s1 | s2) | s3) | s4) | (((s2 | s3) | s4) | s5));
    assert(f5 == ((((s1 | s2) | s3) | s4) | s5) | ((((s2 | s3) | s4) | s5) | s6));
}

/// As `lemma_run6_shl_decomposes`, in direction `-s`.
proof fn lemma_run6_shr_decomposes(x: u64, m: u64, s: u64)
    ensures
        run6_shr(x, m, s) == run_at_shr(x, m, s, 1) | run_at_shr(x, m, s, 2) | run_at_shr(
            x,
            m,
            s,
            3,
        ) | run_at_shr(x, m, s, 4) | run_at_shr(x, m, s, 5) | run_at_shr(x, m, s, 6),
{
    let s1 = run_at_shr(x, m, s, 1);
    let s2 = run_at_shr(x, m, s, 2);
    let s3 = run_at_shr(x, m, s, 3);
    let s4 = run_at_shr(x, m, s, 4);
    let s5 = run_at_shr(x, m, s, 5);
    let s6 = run_at_shr(x, m, s, 6);
    let f0 = (x >> s) & m;
    let f1 = grow_shr(f0, m, s);
    let f2 = grow_shr(f1, m, s);
    let f3 = grow_shr(f2, m, s);
    let f4 = grow_shr(f3, m, s);
    let f5 = grow_shr(f4, m, s);
    assert(f1 == s1 | s2);
    lemma_shr_or_distr(s1, s2, s, m);
    assert(f2 == (s1 | s2) | (s2 | s3));
    lemma_shr_or_distr(s1 | s2, s3, s, m);
    lemma_shr_or_distr((s1 | s2) | s3, s4, s, m);
    lemma_shr_or_distr(((s1 | s2) | s3) | s4, s5, s, m);
    assert((s1 | s2) | (s2 | s3) == (s1 | s2) | s3 && ((s1 | s2) | s3) | ((s2 | s3) | s4) == ((s1
        | s2) | s3) | s4 && (((s1 | s2) | s3) | s4) | (((s2 | s3) | s4) | s5) == (((s1 | s2) | s3)
        | s4) | s5 && ((((s1 | s2) | s3) | s4) | s5) | ((((s2 | s3) | s4) | s5) | s6) == ((((s1
        | s2) | s3) | s4) | s5) | s6) by (bit_vector);
    assert(f3 == ((s1 | s2) | s3) | ((s2 | s3) | s4));
    assert(f4 == (((s1 | s2) | s3) | s4) | (((s2 | s3) | s4) | s5));
    assert(f5 == ((((s1 | s2) | s3) | s4) | s5) | ((((s2 | s3) | s4) | s5) | s6));
}

/// One direction's landing squares are empty exactly when every run
/// length from one to six yields none.
proof fn lemma_moves_shl_zero_iff(p: u64, o: u64, em: u64, s: u64)
    ensures
        moves_shl(p, o, em, s, !(p | o)) == 0 <==> (forall|k: nat|
            1 <= k <= 6 ==> land_shl(p, o, em, s, k) == 0),
{
    let m = o & em;
    let blank = !(p | o);
    lemma_run6_shl_decomposes(p, m, s);
    let s1 = run_at_shl(p, m, s, 1);
    let s2 = run_at_shl(p, m, s, 2);
    let s3 = run_at_shl(p, m, s, 3);
    let s4 = run_at_shl(p, m, s, 4);
    let s5 = run_at_shl(p, m, s, 5);
    let s6 = run_at_shl(p, m, s, 6);
    lemma_shl_or_distr(s1, s2, s, blank);
    lemma_shl_or_distr(s1 | s2, s3, s, blank);
    lemma_shl_or_distr((s1 | s2) | s3, s4, s, blank);
    lemma_shl_or_distr(((s1 | s2) | s3) | s4, s5, s, blank);
    lemma_shl_or_distr((((s1 | s2) | s3) | s4) | s5, s6, s, blank);
    let l1 = land_shl(p, o, em, s, 1);
    let l2 = land_shl(p, o, em, s, 2);
    let l3 = land_shl(p, o, em, s, 3);
    let l4 = land_shl(p, o, em, s, 4);
    let l5 = land_shl(p, o, em, s, 5);
    let l6 = land_shl(p, o, em, s, 6);
    assert(moves_shl(p, o, em, s, blank) == ((((l1 | l2) | l3) | l4) | l5) | l6);
    assert(((((l1 | l2) | l3) | l4) | l5) | l6 == 0 <==> (l1 == 0 && l2 == 0 && l3 == 0 && l4 == 0
        && l5 == 0 && l6 == 0)) by (bit_vector);
    if l1 == 0 && l2 == 0 && l3 == 0 && l4 == 0 && l5 == 0 && l6 == 0 {
        assert forall|k: nat| 1 <= k <= 6 implies land_shl(p, o, em, s, k) == 0 by {
            if k == 1 {
            } else if k == 2 {
            } else if k == 3 {
            } else if k == 4 {
            } else if k == 5 {
            } else {
                assert(k == 6);
            }
        }
    }
}

/// As `lemma_moves_shl_zero_iff`, in direction `-s`.
proof fn lemma_moves_shr_zero_iff(p: u64, o: u64, em: u64, s: u64)
    ensures
        moves_shr(p, o, em, s, !(p | o)) == 0 <==> (forall|k: nat|
            1 <= k <= 6 ==> land_shr(p, o, em, s, k) == 0),
{
    let m = o & em;
    let blank = !(p | o);
    lemma_run6_shr_decomposes(p, m, s);
    let s1 = run_at_shr(p, m, s, 1);
    let s2 = run_at_shr(p, m, s, 2);
    let s3 = run_at_shr(p, m, s, 3);
    let s4 = run_at_shr(p, m, s, 4);
    let s5 = run_at_shr(p, m, s, 5);
    let s6 = run_at_shr(p, m, s, 6);
    lemma_shr_or_distr(s1, s2, s, blank);
    lemma_shr_or_distr(s1 | s2, s3, s, blank);
    lemma_shr_or_distr((s1 | s2) | s3, s4, s, blank);
    lemma_shr_or_distr(((s1 | s2) | s3) | s4, s5, s, blank);
    lemma_shr_or_distr((((s1 | s2) | s3) | s4) | s5, s6, s, blank);
    let l1 = land_shr(p, o, em, s, 1);
    let l2 = land_shr(p, o, em, s, 2);
    let l3 = land_shr(p, o, em, s, 3);
    let l4 = land_shr(p, o, em, s, 4);
    let l5 = land_shr(p, o, em, s, 5);
    let l6 = land_shr(p, o, em, s, 6);
    assert(moves_shr(p, o, em, s, blank) == ((((l1 | l2) | l3) | l4) | l5) | l6);
    assert(((((l1 | l2) | l3) | l4) | l5) | l6 == 0 <==> (l1 == 0 && l2 == 0 && l3 == 0 && l4 == 0
        && l5 == 0 && l6 == 0)) by (bit_vector);
    if l1 == 0 && l2 == 0 && l3 == 0 && l4 == 0 && l5 == 0 && l6 == 0 {
        assert forall|k: nat| 1 <= k <= 6 implies land_shr(p, o, em, s, k) == 0 by {
            if k == 1 {
            } else if k == 2 {
            } else if k == 3 {
            } else if k == 4 {
            } else if k == 5 {
            } else {
                assert(k == 6);
            }
        }
    }
}

/// The legal-move set is empty exactly when no directional walk succeeds:
/// along every axis, in both orientations, no empty square lies one step
/// beyond a nonempty opponent run that an own stone terminates.
pub proof fn lemma_no_legal_move_iff_no_walk(p: u64, o: u64)
    ensures
        legal_spec(p, o) == 0 <==> ((forall|k: nat|
            1 <= k <= 6 ==> land_shl(p, o, em_horizontal(), 1, k) == 0) && (forall|k: nat|
            1 <= k <= 6 ==> land_shr(p, o, em_horizontal(), 1, k) == 0) && (forall|k: nat|
            1 <= k <= 6 ==> land_shl(p, o, em_vertical(), 8, k) == 0) && (forall|k: nat|
            1 <= k <= 6 ==> land_shr(p, o, em_vertical(), 8, k) == 0) && (forall|k: nat|
            1 <= k <= 6 ==> land_shl(p, o, em_diagonal(), 7, k) == 0) && (forall|k: nat|
            1 <= k <= 6 ==> land_shr(p, o, em_diagonal(), 7, k) == 0) && (forall|k: nat|
            1 <= k <= 6 ==> land_shl(p, o, em_diagonal(), 9, k) == 0) && (forall|k: nat|
            1 <= k <= 6 ==> land_shr(p, o, em_diagonal(), 9, k) == 0)),
{
    let blank = !(p | o);
    let m1 = moves_shl(p, o, em_horizontal(), 1, blank);
    let m2 = moves_shr(p, o, em_horizontal(), 1, blank);
    let m3 = moves_shl(p, o, em_vertical(), 8, blank);
    let m4 = moves_shr(p, o, em_vertical(), 8, blank);
    let m5 = moves_shl(p, o, em_diagonal(), 7, blank);
    let m6 = moves_shr(p, o, em_diagonal(), 7, blank);
    let m7 = moves_shl(p, o, em_diagonal(), 9, blank);
    let m8 = moves_shr(p, o, em_diagonal(), 9, blank);
    assert(((((((m1 | m2) | m3) | m4) | m5) | m6) | m7) | m8 == 0 <==> (m1 == 0 && m2 == 0 && m3
        == 0 && m4 == 0 && m5 == 0 && m6 == 0 && m7 == 0 && m8 == 0)) by (bit_vector);
    lemma_moves_shl_zero_iff(p, o, em_horizontal(), 1);
    lemma_moves_shr_zero_iff(p, o, em_horizontal(), 1);
    lemma_moves_shl_zero_iff(p, o, em_vertical(), 8);
    lemma_moves_shr_zero_iff(p, o, em_vertical(), 8);
    lemma_moves_shl_zero_iff(p, o, em_diagonal(), 7);
    lemma_moves_shr_zero_iff(p, o, em_diagonal(), 7);
    lemma_moves_shl_zero_iff(p, o, em_diagonal(), 9);
    lemma_moves_shr_zero_iff(p, o, em_diagonal(), 9);
}

} // verus!
