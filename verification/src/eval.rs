//! Pattern-based static position evaluator: for each of eleven board
//! shapes, read the squares of the shape in all four board rotations,
//! combine their colors into a ternary feature code, and sum the fitted
//! weights of those codes with a mobility term and a constant bias.

use crate::bit::count_bits;
use crate::bit::lemma_popcount_le_64;
use crate::bit::lemma_popcount_max;
use crate::bit::lemma_popcount_remove_subset;
use crate::bit::popcount;
use crate::board::legal_spec;
use crate::board::lemma_and_comm;
use crate::board::lemma_legal_subset_blank;
use crate::board::lemma_or_comm;
use crate::board::Board;
use vstd::prelude::*;

verus! {

pub const N_PATTERN: usize = 11;

pub const N_ROTATION: usize = 4;

pub const N_PHASE: usize = 31;

pub const N_MOBILITY_MAX: usize = 128;

pub const N_MOBILITY_BASE: i32 = 64;

/// Scale of the stored weights: raw sums are in units of one
/// `SCORE_RATE`-th of a stone.
pub const SCORE_RATE: i32 = 128;

/// Largest meaningful position score: one side owning every square.
pub const SCORE_MAX: i32 = 64;

/// Powers of three: the number of ternary codes of `n` squares.
pub open spec fn pow3(n: nat) -> nat
    decreases n,
{
    if n == 0 {
        1
    } else {
        3 * pow3((n - 1) as nat)
    }
}

/// Computes `3^n` for a pattern of `n` squares.
pub fn pow3_exec(n: u8) -> (r: usize)
    requires
        n <= 10,
    ensures
        r == pow3(n as nat),
        r <= 59049,
{
    proof {
        reveal_with_fuel(pow3, 11);
    }
    let mut i: u8 = 0;
    let mut r: usize = 1;
    while i < n
        invariant
            i <= n,
            n <= 10,
            r == pow3(i as nat),
            r <= 59049,
        decreases n - i,
    {
        proof {
            reveal_with_fuel(pow3, 11);
            assert(pow3((i + 1) as nat) == 3 * pow3(i as nat));
            lemma_pow3_bound(i as nat);
        }
        r = r * 3;
        i = i + 1;
    }
    r
}

pub proof fn lemma_pow3_pos(n: nat)
    ensures
        pow3(n) >= 1,
    decreases n,
{
    if n > 0 {
        lemma_pow3_pos((n - 1) as nat);
    }
}

proof fn lemma_pow3_bound(n: nat)
    requires
        n <= 10,
    ensures
        pow3(n) <= 59049,
    decreases 10 - n,
{
    reveal_with_fuel(pow3, 11);
    if n < 10 {
        lemma_pow3_bound((n + 1) as nat);
    }
}

/// Ternary color digit of square `c`: 0 for empty, 1 for a stone of the
/// side to move, 2 for a stone of the opponent.
pub open spec fn square_color(p: u64, o: u64, c: u8) -> int {
    (((p >> (c as u64)) & 1) as int) + 2 * (((o >> (c as u64)) & 1) as int)
}

/// Ternary feature code of a list of squares, first square most
/// significant.
pub open spec fn feature_code(p: u64, o: u64, coords: Seq<u8>) -> int
    decreases coords.len(),
{
    if coords.len() == 0 {
        0
    } else {
        3 * feature_code(p, o, coords.drop_last()) + square_color(p, o, coords.last())
    }
}

/// On a board with disjoint masks every feature code lies below `3^n`.
pub proof fn lemma_feature_code_bound(p: u64, o: u64, coords: Seq<u8>)
    requires
        p & o == 0,
    ensures
        0 <= feature_code(p, o, coords) < pow3(coords.len()),
    decreases coords.len(),
{
    if coords.len() > 0 {
        lemma_feature_code_bound(p, o, coords.drop_last());
        let c = coords.last();
        assert(p & o == 0 ==> ((p >> (c as u64)) & 1) + 2 * ((o >> (c as u64)) & 1) <= 2)
            by (bit_vector);
    }
}

/// One pattern shape: how many squares it reads and, for each of the four
/// board rotations, which squares those are.
#[derive(Clone)]
pub struct CoordToFeature {
    pub n_pattern_square: u8,
    pub feature_coord: Vec<Vec<u8>>,
}

impl CoordToFeature {
    /// Four rotation rows, each listing exactly the pattern's squares.
    pub open spec fn wf(self) -> bool {
        self.n_pattern_square <= 10 && self.feature_coord@.len() == N_ROTATION && (forall|r: int|
            0 <= r < N_ROTATION ==> #[trigger] self.feature_coord@[r]@.len()
                == self.n_pattern_square) && (forall|r: int, i: int|
            0 <= r < N_ROTATION && 0 <= i < self.feature_coord@[r]@.len()
                ==> #[trigger] self.feature_coord@[r]@[i] < 64)
    }
}

/// How many squares pattern `p` reads.
pub open spec fn pattern_square_count_spec(p: int) -> int {
    if p == 0 {
        10
    } else if p == 1 {
        10
    } else if p == 2 {
        10
    } else if p == 3 {
        8
    } else if p == 4 {
        8
    } else if p == 5 {
        9
    } else if p == 6 {
        10
    } else if p == 7 {
        9
    } else if p == 8 {
        6
    } else if p == 9 {
        7
    } else {
        8
    }
}

/// The squares pattern `p` reads in board rotation `rt`, in read order.
pub open spec fn pattern_row_spec(p: int, rt: int) -> Seq<u8> {
    if p == 0 {
        if rt == 0 {
            seq![0u8, 2u8, 3u8, 4u8, 5u8, 7u8, 10u8, 11u8, 12u8, 13u8]
        } else if rt == 1 {
            seq![56u8, 40u8, 32u8, 24u8, 16u8, 0u8, 41u8, 33u8, 25u8, 17u8]
        } else if rt == 2 {
            seq![63u8, 61u8, 60u8, 59u8, 58u8, 56u8, 53u8, 52u8, 51u8, 50u8]
        } else {
            seq![7u8, 23u8, 31u8, 39u8, 47u8, 63u8, 22u8, 30u8, 38u8, 46u8]
        }
    } else if p == 1 {
        if rt == 0 {
            seq![0u8, 1u8, 2u8, 3u8, 4u8, 5u8, 6u8, 7u8, 9u8, 14u8]
        } else if rt == 1 {
            seq![56u8, 48u8, 40u8, 32u8, 24u8, 16u8, 8u8, 0u8, 49u8, 9u8]
        } else if rt == 2 {
            seq![63u8, 62u8, 61u8, 60u8, 59u8, 58u8, 57u8, 56u8, 54u8, 49u8]
        } else {
            seq![7u8, 15u8, 23u8, 31u8, 39u8, 47u8, 55u8, 63u8, 14u8, 54u8]
        }
    } else if p == 2 {
        if rt == 0 {
            seq![0u8, 7u8, 8u8, 9u8, 10u8, 11u8, 12u8, 13u8, 14u8, 15u8]
        } else if rt == 1 {
            seq![56u8, 0u8, 57u8, 49u8, 41u8, 33u8, 25u8, 17u8, 9u8, 1u8]
        } else if rt == 2 {
            seq![63u8, 56u8, 55u8, 54u8, 53u8, 52u8, 51u8, 50u8, 49u8, 48u8]
        } else {
            seq![7u8, 63u8, 6u8, 14u8, 22u8, 30u8, 38u8, 46u8, 54u8, 62u8]
        }
    } else if p == 3 {
        if rt == 0 {
            seq![16u8, 17u8, 18u8, 19u8, 20u8, 21u8, 22u8, 23u8]
        } else if rt == 1 {
            seq![58u8, 50u8, 42u8, 34u8, 26u8, 18u8, 10u8, 2u8]
        } else if rt == 2 {
            seq![47u8, 46u8, 45u8, 44u8, 43u8, 42u8, 41u8, 40u8]
        } else {
            seq![5u8, 13u8, 21u8, 29u8, 37u8, 45u8, 53u8, 61u8]
        }
    } else if p == 4 {
        if rt == 0 {
            seq![24u8, 25u8, 26u8, 27u8, 28u8, 29u8, 30u8, 31u8]
        } else if rt == 1 {
            seq![59u8, 51u8, 43u8, 35u8, 27u8, 19u8, 11u8, 3u8]
        } else if rt == 2 {
            seq![39u8, 38u8, 37u8, 36u8, 35u8, 34u8, 33u8, 32u8]
        } else {
            seq![4u8, 12u8, 20u8, 28u8, 36u8, 44u8, 52u8, 60u8]
        }
    } else if p == 5 {
        if rt == 0 {
            seq![0u8, 1u8, 2u8, 8u8, 9u8, 10u8, 16u8, 17u8, 18u8]
        } else if rt == 1 {
            seq![56u8, 48u8, 40u8, 57u8, 49u8, 41u8, 58u8, 50u8, 42u8]
        } else if rt == 2 {
            seq![63u8, 62u8, 61u8, 55u8, 54u8, 53u8, 47u8, 46u8, 45u8]
        } else {
            seq![7u8, 15u8, 23u8, 6u8, 14u8, 22u8, 5u8, 13u8, 21u8]
        }
    } else if p == 6 {
        if rt == 0 {
            seq![0u8, 1u8, 2u8, 3u8, 8u8, 9u8, 10u8, 16u8, 17u8, 24u8]
        } else if rt == 1 {
            seq![56u8, 48u8, 40u8, 32u8, 57u8, 49u8, 41u8, 58u8, 50u8, 59u8]
        } else if rt == 2 {
            seq![63u8, 62u8, 61u8, 60u8, 55u8, 54u8, 53u8, 47u8, 46u8, 39u8]
        } else {
            seq![7u8, 15u8, 23u8, 31u8, 6u8, 14u8, 22u8, 5u8, 13u8, 4u8]
        }
    } else if p == 7 {
        if rt == 0 {
            seq![0u8, 1u8, 4u8, 8u8, 9u8, 11u8, 18u8, 25u8, 32u8]
        } else if rt == 1 {
            seq![56u8, 48u8, 24u8, 57u8, 49u8, 33u8, 42u8, 51u8, 60u8]
        } else if rt == 2 {
            seq![63u8, 62u8, 59u8, 55u8, 54u8, 52u8, 45u8, 38u8, 31u8]
        } else {
            seq![7u8, 15u8, 39u8, 6u8, 14u8, 30u8, 21u8, 12u8, 3u8]
        }
    } else if p == 8 {
        if rt == 0 {
            seq![5u8, 12u8, 19u8, 26u8, 33u8, 40u8]
        } else if rt == 1 {
            seq![16u8, 25u8, 34u8, 43u8, 52u8, 61u8]
        } else if rt == 2 {
            seq![58u8, 51u8, 44u8, 37u8, 30u8, 23u8]
        } else {
            seq![47u8, 38u8, 29u8, 20u8, 11u8, 2u8]
        }
    } else if p == 9 {
        if rt == 0 {
            seq![6u8, 13u8, 20u8, 27u8, 34u8, 41u8, 48u8]
        } else if rt == 1 {
            seq![8u8, 17u8, 26u8, 35u8, 44u8, 53u8, 62u8]
        } else if rt == 2 {
            seq![57u8, 50u8, 43u8, 36u8, 29u8, 22u8, 15u8]
        } else {
            seq![55u8, 46u8, 37u8, 28u8, 19u8, 10u8, 1u8]
        }
    } else {
        if rt == 0 {
            seq![7u8, 14u8, 21u8, 28u8, 35u8, 42u8, 49u8, 56u8]
        } else if rt == 1 {
            seq![0u8, 9u8, 18u8, 27u8, 36u8, 45u8, 54u8, 63u8]
        } else if rt == 2 {
            seq![56u8, 49u8, 42u8, 35u8, 28u8, 21u8, 14u8, 7u8]
        } else {
            seq![63u8, 54u8, 45u8, 36u8, 27u8, 18u8, 9u8, 0u8]
        }
    }
}

/// The eleven pattern shapes of the evaluator: edge-with-wings, edge with
/// both inner guards, the first four ranks, the corner blocks and
/// triangles, and the four longest diagonals, each in four rotations,
/// exactly the squares `pattern_row_spec` names.
pub fn feature_coords() -> (r: Vec<CoordToFeature>)
    ensures
        r@.len() == N_PATTERN,
        forall|i: int| 0 <= i < N_PATTERN ==> #[trigger] r@[i].wf(),
        forall|i: int|
            0 <= i < N_PATTERN ==> (#[trigger] r@[i]).n_pattern_square == pattern_square_count_spec(
                i,
            ),
        forall|p: int, rt: int|
            0 <= p < N_PATTERN && 0 <= rt < N_ROTATION ==> #[trigger] r@[p].feature_coord@[rt]@
                == pattern_row_spec(p, rt),
{
    let raw: Vec<CoordToFeature> = vec![
        CoordToFeature {
            n_pattern_square: 10,
            feature_coord: vec![
                vec![0u8, 2u8, 3u8, 4u8, 5u8, 7u8, 10u8, 11u8, 12u8, 13u8],
                vec![56u8, 40u8, 32u8, 24u8, 16u8, 0u8, 41u8, 33u8, 25u8, 17u8],
                vec![63u8, 61u8, 60u8, 59u8, 58u8, 56u8, 53u8, 52u8, 51u8, 50u8],
                vec![7u8, 23u8, 31u8, 39u8, 47u8, 63u8, 22u8, 30u8, 38u8, 46u8],
            ],
        },
        CoordToFeature {
            n_pattern_square: 10,
            feature_coord: vec![
                vec![0u8, 1u8, 2u8, 3u8, 4u8, 5u8, 6u8, 7u8, 9u8, 14u8],
                vec![56u8, 48u8, 40u8, 32u8, 24u8, 16u8, 8u8, 0u8, 49u8, 9u8],
                vec![63u8, 62u8, 61u8, 60u8, 59u8, 58u8, 57u8, 56u8, 54u8, 49u8],
                vec![7u8, 15u8, 23u8, 31u8, 39u8, 47u8, 55u8, 63u8, 14u8, 54u8],
            ],
        },
        CoordToFeature {
            n_pattern_square: 10,
            feature_coord: vec![
                vec![0u8, 7u8, 8u8, 9u8, 10u8, 11u8, 12u8, 13u8, 14u8, 15u8],
                vec![56u8, 0u8, 57u8, 49u8, 41u8, 33u8, 25u8, 17u8, 9u8, 1u8],
                vec![63u8, 56u8, 55u8, 54u8, 53u8, 52u8, 51u8, 50u8, 49u8, 48u8],
                vec![7u8, 63u8, 6u8, 14u8, 22u8, 30u8, 38u8, 46u8, 54u8, 62u8],
            ],
        },
        CoordToFeature {
            n_pattern_square: 8,
            feature_coord: vec![
                vec![16u8, 17u8, 18u8, 19u8, 20u8, 21u8, 22u8, 23u8],
                vec![58u8, 50u8, 42u8, 34u8, 26u8, 18u8, 10u8, 2u8],
                vec![47u8, 46u8, 45u8, 44u8, 43u8, 42u8, 41u8, 40u8],
                vec![5u8, 13u8, 21u8, 29u8, 37u8, 45u8, 53u8, 61u8],
            ],
        },
        CoordToFeature {
            n_pattern_square: 8,
            feature_coord: vec![
                vec![24u8, 25u8, 26u8, 27u8, 28u8, 29u8, 30u8, 31u8],
                vec![59u8, 51u8, 43u8, 35u8, 27u8, 19u8, 11u8, 3u8],
                vec![39u8, 38u8, 37u8, 36u8, 35u8, 34u8, 33u8, 32u8],
                vec![4u8, 12u8, 20u8, 28u8, 36u8, 44u8, 52u8, 60u8],
            ],
        },
        CoordToFeature {
            n_pattern_square: 9,
            feature_coord: vec![
                vec![0u8, 1u8, 2u8, 8u8, 9u8, 10u8, 16u8, 17u8, 18u8],
                vec![56u8, 48u8, 40u8, 57u8, 49u8, 41u8, 58u8, 50u8, 42u8],
                vec![63u8, 62u8, 61u8, 55u8, 54u8, 53u8, 47u8, 46u8, 45u8],
                vec![7u8, 15u8, 23u8, 6u8, 14u8, 22u8, 5u8, 13u8, 21u8],
            ],
        },
        CoordToFeature {
            n_pattern_square: 10,
            feature_coord: vec![
                vec![0u8, 1u8, 2u8, 3u8, 8u8, 9u8, 10u8, 16u8, 17u8, 24u8],
                vec![56u8, 48u8, 40u8, 32u8, 57u8, 49u8, 41u8, 58u8, 50u8, 59u8],
                vec![63u8, 62u8, 61u8, 60u8, 55u8, 54u8, 53u8, 47u8, 46u8, 39u8],
                vec![7u8, 15u8, 23u8, 31u8, 6u8, 14u8, 22u8, 5u8, 13u8, 4u8],
            ],
        },
        CoordToFeature {
            n_pattern_square: 9,
            feature_coord: vec![
                vec![0u8, 1u8, 4u8, 8u8, 9u8, 11u8, 18u8, 25u8, 32u8],
                vec![56u8, 48u8, 24u8, 57u8, 49u8, 33u8, 42u8, 51u8, 60u8],
                vec![63u8, 62u8, 59u8, 55u8, 54u8, 52u8, 45u8, 38u8, 31u8],
                vec![7u8, 15u8, 39u8, 6u8, 14u8, 30u8, 21u8, 12u8, 3u8],
            ],
        },
        CoordToFeature {
            n_pattern_square: 6,
            feature_coord: vec![
                vec![5u8, 12u8, 19u8, 26u8, 33u8, 40u8],
                vec![16u8, 25u8, 34u8, 43u8, 52u8, 61u8],
                vec![58u8, 51u8, 44u8, 37u8, 30u8, 23u8],
                vec![47u8, 38u8, 29u8, 20u8, 11u8, 2u8],
            ],
        },
        CoordToFeature {
            n_pattern_square: 7,
            feature_coord: vec![
                vec![6u8, 13u8, 20u8, 27u8, 34u8, 41u8, 48u8],
                vec![8u8, 17u8, 26u8, 35u8, 44u8, 53u8, 62u8],
                vec![57u8, 50u8, 43u8, 36u8, 29u8, 22u8, 15u8],
                vec![55u8, 46u8, 37u8, 28u8, 19u8, 10u8, 1u8],
            ],
        },
        CoordToFeature {
            n_pattern_square: 8,
            feature_coord: vec![
                vec![7u8, 14u8, 21u8, 28u8, 35u8, 42u8, 49u8, 56u8],
                vec![0u8, 9u8, 18u8, 27u8, 36u8, 45u8, 54u8, 63u8],
                vec![56u8, 49u8, 42u8, 35u8, 28u8, 21u8, 14u8, 7u8],
                vec![63u8, 54u8, 45u8, 36u8, 27u8, 18u8, 9u8, 0u8],
            ],
        }
    ];
    proof {
        assert(raw@[0].n_pattern_square == 10);
        assert(raw@[0].feature_coord@[0]@ =~= pattern_row_spec(0, 0));
        assert(forall|k: int|
            0 <= k < raw@[0].feature_coord@[0]@.len() ==> raw@[0].feature_coord@[0]@[k]
                < 64);
        assert(raw@[0].feature_coord@[1]@ =~= pattern_row_spec(0, 1));
        assert(forall|k: int|
            0 <= k < raw@[0].feature_coord@[1]@.len() ==> raw@[0].feature_coord@[1]@[k]
                < 64);
        assert(raw@[0].feature_coord@[2]@ =~= pattern_row_spec(0, 2));
        assert(forall|k: int|
            0 <= k < raw@[0].feature_coord@[2]@.len() ==> raw@[0].feature_coord@[2]@[k]
                < 64);
        assert(raw@[0].feature_coord@[3]@ =~= pattern_row_spec(0, 3));
        assert(forall|k: int|
            0 <= k < raw@[0].feature_coord@[3]@.len() ==> raw@[0].feature_coord@[3]@[k]
                < 64);
        assert(raw@[1].n_pattern_square == 10);
        assert(raw@[1].feature_coord@[0]@ =~= pattern_row_spec(1, 0));
        assert(forall|k: int|
            0 <= k < raw@[1].feature_coord@[0]@.len() ==> raw@[1].feature_coord@[0]@[k]
                < 64);
        assert(raw@[1].feature_coord@[1]@ =~= pattern_row_spec(1, 1));
        assert(forall|k: int|
            0 <= k < raw@[1].feature_coord@[1]@.len() ==> raw@[1].feature_coord@[1]@[k]
                < 64);
        assert(raw@[1].feature_coord@[2]@ =~= pattern_row_spec(1, 2));
        assert(forall|k: int|
            0 <= k < raw@[1].feature_coord@[2]@.len() ==> raw@[1].feature_coord@[2]@[k]
                < 64);
        assert(raw@[1].feature_coord@[3]@ =~= pattern_row_spec(1, 3));
        assert(forall|k: int|
            0 <= k < raw@[1].feature_coord@[3]@.len() ==> raw@[1].feature_coord@[3]@[k]
                < 64);
        assert(raw@[2].n_pattern_square == 10);
        assert(raw@[2].feature_coord@[0]@ =~= pattern_row_spec(2, 0));
        assert(forall|k: int|
            0 <= k < raw@[2].feature_coord@[0]@.len() ==> raw@[2].feature_coord@[0]@[k]
                < 64);
        assert(raw@[2].feature_coord@[1]@ =~= pattern_row_spec(2, 1));
        assert(forall|k: int|
            0 <= k < raw@[2].feature_coord@[1]@.len() ==> raw@[2].feature_coord@[1]@[k]
                < 64);
        assert(raw@[2].feature_coord@[2]@ =~= pattern_row_spec(2, 2));
        assert(forall|k: int|
            0 <= k < raw@[2].feature_coord@[2]@.len() ==> raw@[2].feature_coord@[2]@[k]
                < 64);
        assert(raw@[2].feature_coord@[3]@ =~= pattern_row_spec(2, 3));
        assert(forall|k: int|
            0 <= k < raw@[2].feature_coord@[3]@.len() ==> raw@[2].feature_coord@[3]@[k]
                < 64);
        assert(raw@[3].n_pattern_square == 8);
        assert(raw@[3].feature_coord@[0]@ =~= pattern_row_spec(3, 0));
        assert(forall|k: int|
            0 <= k < raw@[3].feature_coord@[0]@.len() ==> raw@[3].feature_coord@[0]@[k]
                < 64);
        assert(raw@[3].feature_coord@[1]@ =~= pattern_row_spec(3, 1));
        assert(forall|k: int|
            0 <= k < raw@[3].feature_coord@[1]@.len() ==> raw@[3].feature_coord@[1]@[k]
                < 64);
        assert(raw@[3].feature_coord@[2]@ =~= pattern_row_spec(3, 2));
        assert(forall|k: int|
            0 <= k < raw@[3].feature_coord@[2]@.len() ==> raw@[3].feature_coord@[2]@[k]
                < 64);
        assert(raw@[3].feature_coord@[3]@ =~= pattern_row_spec(3, 3));
        assert(forall|k: int|
            0 <= k < raw@[3].feature_coord@[3]@.len() ==> raw@[3].feature_coord@[3]@[k]
                < 64);
        assert(raw@[4].n_pattern_square == 8);
        assert(raw@[4].feature_coord@[0]@ =~= pattern_row_spec(4, 0));
        assert(forall|k: int|
            0 <= k < raw@[4].feature_coord@[0]@.len() ==> raw@[4].feature_coord@[0]@[k]
                < 64);
        assert(raw@[4].feature_coord@[1]@ =~= pattern_row_spec(4, 1));
        assert(forall|k: int|
            0 <= k < raw@[4].feature_coord@[1]@.len() ==> raw@[4].feature_coord@[1]@[k]
                < 64);
        assert(raw@[4].feature_coord@[2]@ =~= pattern_row_spec(4, 2));
        assert(forall|k: int|
            0 <= k < raw@[4].feature_coord@[2]@.len() ==> raw@[4].feature_coord@[2]@[k]
                < 64);
        assert(raw@[4].feature_coord@[3]@ =~= pattern_row_spec(4, 3));
        assert(forall|k: int|
            0 <= k < raw@[4].feature_coord@[3]@.len() ==> raw@[4].feature_coord@[3]@[k]
                < 64);
        assert(raw@[5].n_pattern_square == 9);
        assert(raw@[5].feature_coord@[0]@ =~= pattern_row_spec(5, 0));
        assert(forall|k: int|
            0 <= k < raw@[5].feature_coord@[0]@.len() ==> raw@[5].feature_coord@[0]@[k]
                < 64);
        assert(raw@[5].feature_coord@[1]@ =~= pattern_row_spec(5, 1));
        assert(forall|k: int|
            0 <= k < raw@[5].feature_coord@[1]@.len() ==> raw@[5].feature_coord@[1]@[k]
                < 64);
        assert(raw@[5].feature_coord@[2]@ =~= pattern_row_spec(5, 2));
        assert(forall|k: int|
            0 <= k < raw@[5].feature_coord@[2]@.len() ==> raw@[5].feature_coord@[2]@[k]
                < 64);
        assert(raw@[5].feature_coord@[3]@ =~= pattern_row_spec(5, 3));
        assert(forall|k: int|
            0 <= k < raw@[5].feature_coord@[3]@.len() ==> raw@[5].feature_coord@[3]@[k]
                < 64);
        assert(raw@[6].n_pattern_square == 10);
        assert(raw@[6].feature_coord@[0]@ =~= pattern_row_spec(6, 0));
        assert(forall|k: int|
            0 <= k < raw@[6].feature_coord@[0]@.len() ==> raw@[6].feature_coord@[0]@[k]
                < 64);
        assert(raw@[6].feature_coord@[1]@ =~= pattern_row_spec(6, 1));
        assert(forall|k: int|
            0 <= k < raw@[6].feature_coord@[1]@.len() ==> raw@[6].feature_coord@[1]@[k]
                < 64);
        assert(raw@[6].feature_coord@[2]@ =~= pattern_row_spec(6, 2));
        assert(forall|k: int|
            0 <= k < raw@[6].feature_coord@[2]@.len() ==> raw@[6].feature_coord@[2]@[k]
                < 64);
        assert(raw@[6].feature_coord@[3]@ =~= pattern_row_spec(6, 3));
        assert(forall|k: int|
            0 <= k < raw@[6].feature_coord@[3]@.len() ==> raw@[6].feature_coord@[3]@[k]
                < 64);
        assert(raw@[7].n_pattern_square == 9);
        assert(raw@[7].feature_coord@[0]@ =~= pattern_row_spec(7, 0));
        assert(forall|k: int|
            0 <= k < raw@[7].feature_coord@[0]@.len() ==> raw@[7].feature_coord@[0]@[k]
                < 64);
        assert(raw@[7].feature_coord@[1]@ =~= pattern_row_spec(7, 1));
        assert(forall|k: int|
            0 <= k < raw@[7].feature_coord@[1]@.len() ==> raw@[7].feature_coord@[1]@[k]
                < 64);
        assert(raw@[7].feature_coord@[2]@ =~= pattern_row_spec(7, 2));
        assert(forall|k: int|
            0 <= k < raw@[7].feature_coord@[2]@.len() ==> raw@[7].feature_coord@[2]@[k]
                < 64);
        assert(raw@[7].feature_coord@[3]@ =~= pattern_row_spec(7, 3));
        assert(forall|k: int|
            0 <= k < raw@[7].feature_coord@[3]@.len() ==> raw@[7].feature_coord@[3]@[k]
                < 64);
        assert(raw@[8].n_pattern_square == 6);
        assert(raw@[8].feature_coord@[0]@ =~= pattern_row_spec(8, 0));
        assert(forall|k: int|
            0 <= k < raw@[8].feature_coord@[0]@.len() ==> raw@[8].feature_coord@[0]@[k]
                < 64);
        assert(raw@[8].feature_coord@[1]@ =~= pattern_row_spec(8, 1));
        assert(forall|k: int|
            0 <= k < raw@[8].feature_coord@[1]@.len() ==> raw@[8].feature_coord@[1]@[k]
                < 64);
        assert(raw@[8].feature_coord@[2]@ =~= pattern_row_spec(8, 2));
        assert(forall|k: int|
            0 <= k < raw@[8].feature_coord@[2]@.len() ==> raw@[8].feature_coord@[2]@[k]
                < 64);
        assert(raw@[8].feature_coord@[3]@ =~= pattern_row_spec(8, 3));
        assert(forall|k: int|
            0 <= k < raw@[8].feature_coord@[3]@.len() ==> raw@[8].feature_coord@[3]@[k]
                < 64);
        assert(raw@[9].n_pattern_square == 7);
        assert(raw@[9].feature_coord@[0]@ =~= pattern_row_spec(9, 0));
        assert(forall|k: int|
            0 <= k < raw@[9].feature_coord@[0]@.len() ==> raw@[9].feature_coord@[0]@[k]
                < 64);
        assert(raw@[9].feature_coord@[1]@ =~= pattern_row_spec(9, 1));
        assert(forall|k: int|
            0 <= k < raw@[9].feature_coord@[1]@.len() ==> raw@[9].feature_coord@[1]@[k]
                < 64);
        assert(raw@[9].feature_coord@[2]@ =~= pattern_row_spec(9, 2));
        assert(forall|k: int|
            0 <= k < raw@[9].feature_coord@[2]@.len() ==> raw@[9].feature_coord@[2]@[k]
                < 64);
        assert(raw@[9].feature_coord@[3]@ =~= pattern_row_spec(9, 3));
        assert(forall|k: int|
            0 <= k < raw@[9].feature_coord@[3]@.len() ==> raw@[9].feature_coord@[3]@[k]
                < 64);
        assert(raw@[10].n_pattern_square == 8);
        assert(raw@[10].feature_coord@[0]@ =~= pattern_row_spec(10, 0));
        assert(forall|k: int|
            0 <= k < raw@[10].feature_coord@[0]@.len() ==> raw@[10].feature_coord@[0]@[k]
                < 64);
        assert(raw@[10].feature_coord@[1]@ =~= pattern_row_spec(10, 1));
        assert(forall|k: int|
            0 <= k < raw@[10].feature_coord@[1]@.len() ==> raw@[10].feature_coord@[1]@[k]
                < 64);
        assert(raw@[10].feature_coord@[2]@ =~= pattern_row_spec(10, 2));
        assert(forall|k: int|
            0 <= k < raw@[10].feature_coord@[2]@.len() ==> raw@[10].feature_coord@[2]@[k]
                < 64);
        assert(raw@[10].feature_coord@[3]@ =~= pattern_row_spec(10, 3));
        assert(forall|k: int|
            0 <= k < raw@[10].feature_coord@[3]@.len() ==> raw@[10].feature_coord@[3]@[k]
                < 64);
        assert forall|p: int| 0 <= p < N_PATTERN implies (#[trigger] raw@[p]).n_pattern_square
            == pattern_square_count_spec(p) && raw@[p].wf() by {
            if p == 0 {
            } else if p == 1 {
            } else if p == 2 {
            } else if p == 3 {
            } else if p == 4 {
            } else if p == 5 {
            } else if p == 6 {
            } else if p == 7 {
            } else if p == 8 {
            } else if p == 9 {
            } else {
            }
        }
        assert forall|p: int, rt: int|
            0 <= p < N_PATTERN && 0 <= rt < N_ROTATION implies #[trigger] raw@[p].feature_coord@[rt]@
            == pattern_row_spec(p, rt) by {
            if p == 0 {
                if rt == 0 {
                } else if rt == 1 {
                } else if rt == 2 {
                } else {
                }
            } else if p == 1 {
                if rt == 0 {
                } else if rt == 1 {
                } else if rt == 2 {
                } else {
                }
            } else if p == 2 {
                if rt == 0 {
                } else if rt == 1 {
                } else if rt == 2 {
                } else {
                }
            } else if p == 3 {
                if rt == 0 {
                } else if rt == 1 {
                } else if rt == 2 {
                } else {
                }
            } else if p == 4 {
                if rt == 0 {
                } else if rt == 1 {
                } else if rt == 2 {
                } else {
                }
            } else if p == 5 {
                if rt == 0 {
                } else if rt == 1 {
                } else if rt == 2 {
                } else {
                }
            } else if p == 6 {
                if rt == 0 {
                } else if rt == 1 {
                } else if rt == 2 {
                } else {
                }
            } else if p == 7 {
                if rt == 0 {
                } else if rt == 1 {
                } else if rt == 2 {
                } else {
                }
            } else if p == 8 {
                if rt == 0 {
                } else if rt == 1 {
                } else if rt == 2 {
                } else {
                }
            } else if p == 9 {
                if rt == 0 {
                } else if rt == 1 {
                } else if rt == 2 {
                } else {
                }
            } else {
                if rt == 0 {
                } else if rt == 1 {
                } else if rt == 2 {
                } else {
                }
            }
        }
    }
    raw
}

/// One phase's fitted weights: per-pattern feature weights, the mobility
/// table, and the constant bias.
#[derive(Clone)]
pub struct EvaluationScores {
    pub pattern_eval: Vec<Vec<i16>>,
    pub mobility_eval: Vec<i16>,
    pub const_eval: i16,
}

impl EvaluationScores {
    /// Weight rows sized to the pattern shapes, and a full mobility table.
    pub open spec fn wf(self, patterns: Seq<CoordToFeature>) -> bool {
        self.pattern_eval@.len() == N_PATTERN && (forall|p: int|
            0 <= p < N_PATTERN ==> #[trigger] self.pattern_eval@[p]@.len() == pow3(
                patterns[p].n_pattern_square as nat,
            )) && self.mobility_eval@.len() == N_MOBILITY_MAX
    }

    /// All-zero weights for the given pattern shapes.
    pub fn zeroed(patterns: &Vec<CoordToFeature>) -> (r: EvaluationScores)
        requires
            patterns@.len() == N_PATTERN,
            forall|i: int| 0 <= i < N_PATTERN ==> #[trigger] patterns@[i].wf(),
        ensures
            r.wf(patterns@),
    {
        let mut pattern_eval: Vec<Vec<i16>> = Vec::new();
        let mut p: usize = 0;
        while p < N_PATTERN
            invariant
                p <= N_PATTERN,
                patterns@.len() == N_PATTERN,
                forall|i: int| 0 <= i < N_PATTERN ==> #[trigger] patterns@[i].wf(),
                pattern_eval@.len() == p,
                forall|i: int|
                    0 <= i < p ==> #[trigger] pattern_eval@[i]@.len() == pow3(
                        patterns@[i].n_pattern_square as nat,
                    ),
            decreases N_PATTERN - p,
        {
            proof {
                assert(patterns@[p as int].wf());
            }
            let n = pow3_exec(patterns[p].n_pattern_square);
            let mut row: Vec<i16> = Vec::new();
            let mut i: usize = 0;
            while i < n
                invariant
                    i <= n,
                    row@.len() == i,
                decreases n - i,
            {
                row.push(0i16);
                i += 1;
            }
            pattern_eval.push(row);
            p += 1;
        }
        let mut mobility_eval: Vec<i16> = Vec::new();
        let mut i: usize = 0;
        while i < N_MOBILITY_MAX
            invariant
                i <= N_MOBILITY_MAX,
                mobility_eval@.len() == i,
            decreases N_MOBILITY_MAX - i,
        {
            mobility_eval.push(0i16);
            i += 1;
        }
        EvaluationScores { pattern_eval, mobility_eval, const_eval: 0 }
    }
}

/// The position evaluator: pattern descriptors, the weight tables for both
/// sides and every phase, and the feature codes of the last examined
/// position.
pub struct Evaluator {
    pub version: String,
    pub n_deta_set: i32,
    pub n_iteration: i32,
    pub eval: Vec<Vec<EvaluationScores>>,
    pub feature_bit: Vec<Vec<u16>>,
    pub patterns: Vec<CoordToFeature>,
}

/// Sum of the four rotation weights of the first `n` patterns, looked up
/// at the stored feature codes.
pub open spec fn pattern_sum(pe: Seq<Vec<i16>>, fb: Seq<Vec<u16>>, n: int) -> int
    decreases n,
{
    if n <= 0 {
        0
    } else {
        pattern_sum(pe, fb, n - 1) + pe[n - 1]@[fb[n - 1]@[0] as int] + pe[n - 1]@[fb[n - 1]@[1] as int]
            + pe[n - 1]@[fb[n - 1]@[2] as int] + pe[n - 1]@[fb[n - 1]@[3] as int]
    }
}

/// Index into the mobility table: centered difference of the two sides'
/// legal-move counts.
pub open spec fn mobility_index(b: Board) -> int {
    64 + popcount(legal_spec(b.player(), b.opponent())) - popcount(
        legal_spec(b.opponent(), b.player()),
    )
}

/// Phase of the game: half the number of moves played.
pub open spec fn phase_of(b: Board) -> int {
    (popcount(b.occupied()) - 4) / 2
}

/// A side's legal moves always land on empty squares, so there are never
/// more of them than empty squares.
pub proof fn lemma_mobility_bounded(p: u64, o: u64)
    requires
        p & o == 0,
    ensures
        popcount(legal_spec(p, o)) <= 64 - popcount(p | o),
{
    lemma_legal_subset_blank(p, o);
    let l = legal_spec(p, o);
    let occ = p | o;
    assert(l & occ == 0 ==> (!occ & l) == l && (!occ & (!occ ^ l)) == (!occ ^ l) && ((!occ ^ l) ^ l)
        == !occ && ((!occ ^ l) & l) == 0 && (occ & !occ) == 0 && (occ | !occ)
        == 0xffff_ffff_ffff_ffffu64 && ((!occ ^ l) | l) == !occ) by (bit_vector);
    crate::bit::lemma_popcount_disjoint_or(occ, !occ);
    lemma_popcount_max();
    crate::bit::lemma_popcount_disjoint_or(!occ ^ l, l);
}

impl Evaluator {
    /// Shape invariant: eleven well-formed patterns, a full weight table
    /// for both sides and all phases, and feature codes in range.
    pub open spec fn wf(self) -> bool {
        self.patterns@.len() == N_PATTERN && (forall|i: int|
            0 <= i < N_PATTERN ==> #[trigger] self.patterns@[i].wf()) && self.eval@.len() == 2 && (
        forall|s: int| 0 <= s < 2 ==> #[trigger] self.eval@[s]@.len() == N_PHASE) && (forall|
            s: int,
            ph: int,
        |
            0 <= s < 2 && 0 <= ph < N_PHASE ==> (#[trigger] self.eval@[s]@[ph]).wf(self.patterns@))
            && self.feature_bit@.len() == N_PATTERN && (forall|p: int|
            0 <= p < N_PATTERN ==> #[trigger] self.feature_bit@[p]@.len() == N_ROTATION) && (forall|
            p: int,
            r: int,
        |
            0 <= p < N_PATTERN && 0 <= r < N_ROTATION ==> #[trigger] self.feature_bit@[p]@[r]
                < pow3(self.patterns@[p].n_pattern_square as nat))
    }

    /// Builds an evaluator with the standard pattern shapes and all-zero
    /// weights.
    pub fn new() -> (r: Evaluator)
        ensures
            r.wf(),
    {
        let patterns = feature_coords();
        let mut eval: Vec<Vec<EvaluationScores>> = Vec::new();
        let mut s: usize = 0;
        while s < 2
            invariant
                s <= 2,
                patterns@.len() == N_PATTERN,
                forall|i: int| 0 <= i < N_PATTERN ==> #[trigger] patterns@[i].wf(),
                eval@.len() == s,
                forall|i: int| 0 <= i < s ==> #[trigger] eval@[i]@.len() == N_PHASE,
                forall|i: int, ph: int|
                    0 <= i < s && 0 <= ph < N_PHASE ==> (#[trigger] eval@[i]@[ph]).wf(patterns@),
            decreases 2 - s,
        {
            let mut phases: Vec<EvaluationScores> = Vec::new();
            let mut ph: usize = 0;
            while ph < N_PHASE
                invariant
                    ph <= N_PHASE,
                    patterns@.len() == N_PATTERN,
                    forall|i: int| 0 <= i < N_PATTERN ==> #[trigger] patterns@[i].wf(),
                    phases@.len() == ph,
                    forall|i: int|
                        0 <= i < ph ==> (#[trigger] phases@[i]).wf(patterns@),
                decreases N_PHASE - ph,
            {
                phases.push(EvaluationScores::zeroed(&patterns));
                ph += 1;
            }
            eval.push(phases);
            s += 1;
        }
        let mut feature_bit: Vec<Vec<u16>> = Vec::new();
        let mut p: usize = 0;
        while p < N_PATTERN
            invariant
                p <= N_PATTERN,
                feature_bit@.len() == p,
                forall|i: int| 0 <= i < p ==> #[trigger] feature_bit@[i]@.len() == N_ROTATION,
                forall|i: int, r: int|
                    0 <= i < p && 0 <= r < N_ROTATION ==> #[trigger] feature_bit@[i]@[r] == 0u16,
            decreases N_PATTERN - p,
        {
            feature_bit.push(vec![0u16, 0u16, 0u16, 0u16]);
            p += 1;
        }
        proof {
            assert forall|i: int, r: int|
                0 <= i < N_PATTERN && 0 <= r < N_ROTATION implies #[trigger] feature_bit@[i]@[r]
                < pow3(patterns@[i].n_pattern_square as nat) by {
                lemma_pow3_pos(patterns@[i].n_pattern_square as nat);
            }
        }
        Evaluator {
            version: "0".to_owned(),
            n_deta_set: 0,
            n_iteration: 0,
            eval,
            feature_bit,
            patterns,
        }
    }

    /// Reads the feature code of every pattern and rotation off the given
    /// position and stores them.
    pub fn clac_features(&mut self, board: &Board)
        requires
            old(self).wf(),
            board.wf(),
        ensures
            final(self).wf(),
            final(self).eval == old(self).eval,
            final(self).patterns == old(self).patterns,
            final(self).version == old(self).version,
            final(self).n_deta_set == old(self).n_deta_set,
            final(self).n_iteration == old(self).n_iteration,
            forall|p: int, r: int|
                0 <= p < N_PATTERN && 0 <= r < N_ROTATION
                    ==> #[trigger] final(self).feature_bit@[p]@[r] == feature_code(
                    board.player(),
                    board.opponent(),
                    old(self).patterns@[p].feature_coord@[r]@,
                ),
    {
        let pb: u64 = board.bit_board[board.next_turn];
        let ob: u64 = board.bit_board[1 - board.next_turn];
        proof {
            lemma_and_comm(board.black(), board.white());
        }
        let mut feature_bit: Vec<Vec<u16>> = Vec::new();
        let mut pattern: usize = 0;
        while pattern < N_PATTERN
            invariant
                self.wf(),
                board.wf(),
                pb == board.player(),
                ob == board.opponent(),
                pb & ob == 0,
                pattern <= N_PATTERN,
                feature_bit@.len() == pattern,
                forall|p: int| 0 <= p < pattern ==> #[trigger] feature_bit@[p]@.len() == N_ROTATION,
                forall|p: int, r: int|
                    0 <= p < pattern && 0 <= r < N_ROTATION ==> #[trigger] feature_bit@[p]@[r]
                        == feature_code(pb, ob, self.patterns@[p].feature_coord@[r]@),
                forall|p: int, r: int|
                    0 <= p < pattern && 0 <= r < N_ROTATION ==> #[trigger] feature_bit@[p]@[r]
                        < pow3(self.patterns@[p].n_pattern_square as nat),
            decreases N_PATTERN - pattern,
        {
            let pat = &self.patterns[pattern];
            let n = pat.n_pattern_square as usize;
            let mut row: Vec<u16> = Vec::new();
            let mut rotation: usize = 0;
            while rotation < N_ROTATION
                invariant
                    self.wf(),
                    pb & ob == 0,
                    pat == &self.patterns@[pattern as int],
                    pat.wf(),
                    pattern < N_PATTERN,
                    n == pat.n_pattern_square,
                    rotation <= N_ROTATION,
                    row@.len() == rotation,
                    forall|r: int|
                        0 <= r < rotation ==> #[trigger] row@[r] == feature_code(
                            pb,
                            ob,
                            pat.feature_coord@[r]@,
                        ),
                    forall|r: int|
                        0 <= r < rotation ==> #[trigger] row@[r] < pow3(
                            pat.n_pattern_square as nat,
                        ),
                decreases N_ROTATION - rotation,
            {
                let coords = &pat.feature_coord[rotation];
                let mut fbit: u16 = 0;
                let mut i: usize = 0;
                proof {
                    assert(coords@.subrange(0, 0) =~= Seq::<u8>::empty());
                    lemma_pow3_bound(0);
                }
                while i < n
                    invariant
                        pb & ob == 0,
                        pat.wf(),
                        n == pat.n_pattern_square,
                        coords == &pat.feature_coord@[rotation as int],
                        rotation < N_ROTATION,
                        coords@.len() == n,
                        i <= n,
                        fbit == feature_code(pb, ob, coords@.subrange(0, i as int)),
                        fbit < pow3(i as nat),
                    decreases n - i,
                {
                    let coord = coords[i];
                    proof {
                        let pre = coords@.subrange(0, i as int);
                        let cur = coords@.subrange(0, i + 1);
                        assert(cur.drop_last() =~= pre);
                        assert(cur.last() == coords@[i as int]);
                        assert(pb & ob == 0 ==> 2 * ((pb >> (coord as u64)) & 1) + ((ob >> (
                        coord as u64)) & 1) <= 2) by (bit_vector);
                        lemma_pow3_bound((i + 1) as nat);
                        reveal_with_fuel(pow3, 11);
                    }
                    proof {
                        assert(1 & (pb >> (coord as u64)) <= 1 && 1 & (ob >> (coord as u64)) <= 1
                            && (1 & (pb >> (coord as u64))) + 2 * (1 & (ob >> (coord as u64)))
                            == ((pb >> (coord as u64)) & 1) + 2 * ((ob >> (coord as u64)) & 1))
                            by (bit_vector);
                    }
                    let color: u64 = (1 & (pb >> coord)) + 2 * (1 & (ob >> coord));
                    fbit = fbit * 3 + color as u16;
                    i += 1;
                }
                proof {
                    assert(coords@.subrange(0, n as int) =~= coords@);
                }
                row.push(fbit);
                rotation += 1;
            }
            feature_bit.push(row);
            pattern += 1;
        }
        self.feature_bit = feature_bit;
    }

    /// Scores the position from the stored feature codes: the pattern
    /// weight sum plus the mobility weight plus the phase bias.
    pub fn clac_eval(&self, board: &Board) -> (r: i32)
        requires
            self.wf(),
            board.wf(),
            4 <= popcount(board.occupied()),
            popcount(board.occupied()) <= 64,
        ensures
            r == pattern_sum(
                self.eval@[board.next_turn as int]@[phase_of(*board)].pattern_eval@,
                self.feature_bit@,
                N_PATTERN as int,
            ) + self.eval@[board.next_turn as int]@[phase_of(*board)].mobility_eval@[mobility_index(
                *board,
            )] + self.eval@[board.next_turn as int]@[phase_of(*board)].const_eval,
            -1600000 <= r <= 1600000,
    {
        let move_count = board.move_count();
        let phase = (move_count / 2) as usize;

        let mut evaluation: i32 = 0;

        let eval_scores = &self.eval[board.next_turn][phase];
        let mut pattern: usize = 0;
        while pattern < N_PATTERN
            invariant
                self.wf(),
                phase == phase_of(*board),
                0 <= phase < N_PHASE,
                board.next_turn <= 1,
                eval_scores == &self.eval@[board.next_turn as int]@[phase as int],
                pattern <= N_PATTERN,
                evaluation == pattern_sum(
                    eval_scores.pattern_eval@,
                    self.feature_bit@,
                    pattern as int,
                ),
                -32768 * 4 * (pattern as int) <= evaluation as int,
                evaluation as int <= 32767 * 4 * (pattern as int),
            decreases N_PATTERN - pattern,
        {
            proof {
                assert(-32768 * 4 * (pattern as int) <= evaluation as int);
                assert(self.patterns@[pattern as int].wf());
                assert(eval_scores.wf(self.patterns@));
                assert(self.feature_bit@[pattern as int]@.len() == N_ROTATION);
                assert(eval_scores.pattern_eval@[pattern as int]@.len() == pow3(
                    self.patterns@[pattern as int].n_pattern_square as nat,
                ));
                assert(forall|r: int|
                    0 <= r < N_ROTATION ==> #[trigger] self.feature_bit@[pattern as int]@[r]
                        < pow3(self.patterns@[pattern as int].n_pattern_square as nat));
            }
            let fb = &self.feature_bit[pattern];
            let pe = &eval_scores.pattern_eval[pattern];
            proof {
                assert(evaluation as int >= -32768 * 4 * 11) by (nonlinear_arith)
                    requires
                        pattern < 11,
                        -32768 * 4 * (pattern as int) <= evaluation as int,
                ;
                assert(evaluation as int <= 32767 * 4 * 11) by (nonlinear_arith)
                    requires
                        pattern < 11,
                        evaluation as int <= 32767 * 4 * (pattern as int),
                ;
            }
            evaluation = evaluation + pe[fb[0] as usize] as i32 + pe[fb[1] as usize] as i32 + pe[fb[2]
                as usize] as i32 + pe[fb[3] as usize] as i32;
            proof {
                assert(-32768 * 4 * ((pattern + 1) as int) <= evaluation as int) by (nonlinear_arith)
                    requires
                        -32768 * 4 * 12 <= evaluation as int,
                        pattern < 11,
                        -32768 * 4 * (pattern as int) - 4 * 32768 <= evaluation as int,
                ;
                assert(evaluation as int <= 32767 * 4 * ((pattern + 1) as int)) by (nonlinear_arith)
                    requires
                        pattern < 11,
                        evaluation as int <= 32767 * 4 * (pattern as int) + 4 * 32767,
                ;
                assert(pattern_sum(eval_scores.pattern_eval@, self.feature_bit@, pattern + 1)
                    == pattern_sum(eval_scores.pattern_eval@, self.feature_bit@, pattern as int)
                    + eval_scores.pattern_eval@[pattern as int]@[self.feature_bit@[pattern as int]@[0] as int]
                    + eval_scores.pattern_eval@[pattern as int]@[self.feature_bit@[pattern as int]@[1] as int]
                    + eval_scores.pattern_eval@[pattern as int]@[self.feature_bit@[pattern as int]@[2] as int]
                    + eval_scores.pattern_eval@[pattern as int]@[self.feature_bit@[pattern as int]@[3] as int]);
            }
            pattern += 1;
        }

        proof {
            assert(evaluation as int >= -32768 * 4 * 11) by (nonlinear_arith)
                requires
                    pattern == 11,
                    -32768 * 4 * (pattern as int) <= evaluation as int,
            ;
            assert(evaluation as int <= 32767 * 4 * 11) by (nonlinear_arith)
                requires
                    pattern == 11,
                    evaluation as int <= 32767 * 4 * (pattern as int),
            ;
            lemma_and_comm(board.black(), board.white());
            lemma_or_comm(board.player(), board.opponent());
            lemma_mobility_bounded(board.player(), board.opponent());
            lemma_mobility_bounded(board.opponent(), board.player());
            assert(popcount(board.player() | board.opponent()) == popcount(board.occupied()));
        }
        let own_mobility = count_bits(board.put_able());
        let opp_mobility = count_bits(board.opponent_put_able());
        let mobility: usize = (N_MOBILITY_BASE + own_mobility as i32 - opp_mobility as i32) as usize;

        evaluation = evaluation + eval_scores.mobility_eval[mobility] as i32;
        evaluation = evaluation + eval_scores.const_eval as i32;

        evaluation
    }

    /// The raw weight sum scaled to stones: rounded away from zero at half
    /// a stone, then clamped to the score range.
    pub open spec fn scaled_score(e: int) -> int {
        let d = if e > 0 {
            (e + 64) / 128
        } else if e < 0 {
            -((64 - e) / 128)
        } else {
            0
        };
        if d > 64 {
            64
        } else if d < -64 {
            -64
        } else {
            d
        }
    }

    /// Reads the features of the position and scores it, in stones.
    pub fn clac_features_eval(&mut self, board: &Board) -> (r: i32)
        requires
            old(self).wf(),
            board.wf(),
            4 <= popcount(board.occupied()),
            popcount(board.occupied()) <= 64,
        ensures
            final(self).wf(),
            final(self).eval == old(self).eval,
            final(self).patterns == old(self).patterns,
            -SCORE_MAX <= r,
            r <= SCORE_MAX,
            forall|p: int, rt: int|
                0 <= p < N_PATTERN && 0 <= rt < N_ROTATION
                    ==> #[trigger] final(self).feature_bit@[p]@[rt] == feature_code(
                    board.player(),
                    board.opponent(),
                    old(self).patterns@[p].feature_coord@[rt]@,
                ),
            r == Evaluator::scaled_score(
                pattern_sum(
                    final(self).eval@[board.next_turn as int]@[phase_of(
                        *board,
                    )].pattern_eval@,
                    final(self).feature_bit@,
                    N_PATTERN as int,
                ) + final(self).eval@[board.next_turn as int]@[phase_of(
                    *board,
                )].mobility_eval@[mobility_index(*board)] + final(self).eval@[board.next_turn as int]@[phase_of(
                    *board,
                )].const_eval,
            ),
    {
        self.clac_features(board);
        let mut e: i32 = self.clac_eval(board);

        if e > 0 {
            e = (e + SCORE_RATE / 2) / SCORE_RATE;
        } else if e < 0 {
            e = -((SCORE_RATE / 2 - e) / SCORE_RATE);
        }

        if e > SCORE_MAX {
            e = SCORE_MAX;
        } else if e < -SCORE_MAX {
            e = -SCORE_MAX;
        }
        e
    }
}

} // verus!


