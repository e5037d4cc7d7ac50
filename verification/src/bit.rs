//! 64-bit board mask utilities: the three symmetry transforms of the 8x8
//! board (transpose, vertical mirror, horizontal mirror) and bit counting.

use vstd::prelude::*;

verus! {

/// True when bit `i` of `v` is set (square `i` of the mask is occupied).
pub open spec fn bit64(v: u64, i: u64) -> bool {
    (v >> i) & 1 == 1
}

/// Number of set bits among the `n` lowest bits of `v`.
pub open spec fn pop_below(v: u64, n: nat) -> nat
    decreases n,
{
    if n == 0 {
        0
    } else {
        pop_below(v, (n - 1) as nat) + (if bit64(v, (n - 1) as u64) {
            1nat
        } else {
            0nat
        })
    }
}

/// Number of set bits of `v`.
pub open spec fn popcount(v: u64) -> nat {
    pop_below(v, 64)
}

pub proof fn lemma_pop_below_le(v: u64, n: nat)
    ensures
        pop_below(v, n) <= n,
    decreases n,
{
    if n > 0 {
        lemma_pop_below_le(v, (n - 1) as nat);
    }
}

/// A mask never holds more than 64 stones.
pub proof fn lemma_popcount_le_64(v: u64)
    ensures
        popcount(v) <= 64,
{
    lemma_pop_below_le(v, 64);
}

proof fn lemma_pop_below_disjoint_or(a: u64, b: u64, n: nat)
    requires
        a & b == 0,
        n <= 64,
    ensures
        pop_below(a | b, n) == pop_below(a, n) + pop_below(b, n),
    decreases n,
{
    if n > 0 {
        lemma_pop_below_disjoint_or(a, b, (n - 1) as nat);
        let i = (n - 1) as u64;
        assert(a & b == 0 && i < 64 ==> ((((a | b) >> i) & 1 == 1) == ((a >> i) & 1 == 1 || (b
            >> i) & 1 == 1)) && !((a >> i) & 1 == 1 && (b >> i) & 1 == 1)) by (bit_vector);
        assert((if bit64(a | b, i) {
            1nat
        } else {
            0nat
        }) == (if bit64(a, i) {
            1nat
        } else {
            0nat
        }) + (if bit64(b, i) {
            1nat
        } else {
            0nat
        }));
        assert(pop_below(a | b, n) == pop_below(a | b, (n - 1) as nat) + (if bit64(a | b, i) {
            1nat
        } else {
            0nat
        }));
    }
}

/// Disjoint masks hold together as many stones as separately.
pub proof fn lemma_popcount_disjoint_or(a: u64, b: u64)
    requires
        a & b == 0,
    ensures
        popcount(a | b) == popcount(a) + popcount(b),
{
    lemma_pop_below_disjoint_or(a, b, 64);
}

/// A mask with no set bits below `n` counts zero there; in particular the
/// empty mask holds no stones.
pub proof fn lemma_pop_below_zero_mask(v: u64, n: nat)
    requires
        n <= 64,
        forall|i: u64| i < n ==> !bit64(v, i),
    ensures
        pop_below(v, n) == 0,
{
    lemma_pop_below_zero(v, n);
}

proof fn lemma_pop_below_zero(v: u64, n: nat)
    requires
        n <= 64,
        forall|i: u64| i < n ==> !bit64(v, i),
    ensures
        pop_below(v, n) == 0,
    decreases n,
{
    if n > 0 {
        lemma_pop_below_zero(v, (n - 1) as nat);
    }
}

proof fn lemma_pop_below_one(v: u64, k: u64, n: nat)
    requires
        k < n <= 64,
        bit64(v, k),
        forall|i: u64| i < 64 && i != k ==> !bit64(v, i),
    ensures
        pop_below(v, n) == 1,
    decreases n,
{
    if n == k + 1 {
        lemma_pop_below_zero(v, k as nat);
    } else {
        lemma_pop_below_one(v, k, (n - 1) as nat);
    }
}

/// A nonzero mask that is a power of two holds exactly one stone.
pub proof fn lemma_popcount_single_bit(v: u64)
    requires
        v != 0,
        v & vstd::prelude::sub(v, 1) == 0,
    ensures
        popcount(v) == 1,
{
    broadcast use vstd::std_specs::bits::axiom_u64_trailing_zeros;

    let k = vstd::std_specs::bits::u64_trailing_zeros(v) as u64;
    assert(bit64(v, k));
    assert forall|i: u64| i < 64 && i != k implies !bit64(v, i) by {
        assert((v >> k) & 1 == 1 && v & vstd::prelude::sub(v, 1) == 0 && i < 64 && k < 64 && i != k ==> (v >> i)
            & 1 == 0) by (bit_vector);
    }
    lemma_pop_below_one(v, k, 64);
}

/// The lowest set bit of a nonzero mask, as `(!v + 1) & v` computes it.
pub open spec fn lowest_bit(v: u64) -> u64 {
    vstd::prelude::add(!v, 1) & v
}

pub proof fn lemma_lowest_bit(v: u64)
    requires
        v != 0,
    ensures
        lowest_bit(v) != 0,
        lowest_bit(v) & v == lowest_bit(v),
        v & lowest_bit(v) == lowest_bit(v),
        lowest_bit(v) & vstd::prelude::sub(lowest_bit(v), 1) == 0,
        v & vstd::prelude::sub(v, 1) == v ^ lowest_bit(v),
        popcount(lowest_bit(v)) == 1,
{
    assert(v != 0 ==> (vstd::prelude::add(!v, 1) & v) != 0 && ((vstd::prelude::add(!v, 1) & v) & v)
        == (vstd::prelude::add(!v, 1) & v) && (v & (vstd::prelude::add(!v, 1) & v))
        == (vstd::prelude::add(!v, 1) & v) && ((vstd::prelude::add(!v, 1) & v)
        & vstd::prelude::sub((vstd::prelude::add(!v, 1) & v), 1)) == 0 && (v
        & vstd::prelude::sub(v, 1)) == (v ^ (vstd::prelude::add(!v, 1) & v))) by (bit_vector);
    lemma_popcount_single_bit(lowest_bit(v));
}

/// Picks off the lowest set bit of a nonzero mask: the next move to try
/// when walking a legal-move mask.
pub fn take_lowest_bit(v: u64) -> (r: (u64, u64))
    requires
        v != 0,
    ensures
        r.0 == lowest_bit(v),
        r.0 != 0,
        r.0 & vstd::prelude::sub(r.0, 1) == 0,
        r.0 & v == r.0,
        popcount(r.0) == 1,
        r.1 == v ^ r.0,
        r.1 & v == r.1,
        popcount(r.1) == popcount(v) - 1,
{
    proof {
        lemma_lowest_bit(v);
        lemma_popcount_remove_subset(v, lowest_bit(v));
        assert(v != 0 ==> !v <= 0xFFFF_FFFF_FFFF_FFFEu64 && ((v ^ (vstd::prelude::add(!v, 1) & v))
            & v) == (v ^ (vstd::prelude::add(!v, 1) & v))) by (bit_vector);
    }
    let low = (!v + 1) & v;
    (low, v ^ low)
}

/// Each bit of a mask is zero or one.
pub proof fn lemma_bit_binary(v: u64, i: u64)
    by (bit_vector)
    ensures
        (v >> i) & 1 == 0 || (v >> i) & 1 == 1,
{
}

/// Intersection is idempotent.
pub proof fn lemma_and_idem(a: u64)
    by (bit_vector)
    ensures
        a & a == a,
{
}

/// Picking a stone `m` out of a working set `moves` drawn from `legal`:
/// the stone is a legal one on an empty square, and what remains of the
/// working set still lies inside `legal` and is strictly smaller.
pub proof fn lemma_pick_move(m: u64, moves: u64, legal: u64, occ: u64)
    by (bit_vector)
    requires
        m != 0,
        m & moves == m,
        moves & legal == moves,
        legal & occ == 0,
    ensures
        (m & legal) == m,
        (m & legal) != 0,
        (legal & m) != 0,
        m & occ == 0,
        ((moves ^ m) & legal) == (moves ^ m),
        (moves ^ m) != moves,
        forall|j: u64| j < 64 && bit64(moves, j) && !bit64(moves ^ m, j) ==> bit64(m, j),
        forall|j: u64| j < 64 && bit64(m, j) ==> bit64(moves, j),
{
}

/// A single set bit below 64 yields a nonzero power-of-two mask.
pub proof fn lemma_shift_single(sh: u64)
    by (bit_vector)
    requires
        sh < 64,
    ensures
        (1u64 << sh) != 0,
        ((1u64 << sh) & vstd::prelude::sub(1u64 << sh, 1)) == 0,
{
}

/// A power-of-two mask is the shift of its one set bit.
pub proof fn lemma_single_bit_index(m: u64, t: u64)
    by (bit_vector)
    requires
        m != 0,
        m & vstd::prelude::sub(m, 1) == 0,
        (m >> t) & 1 == 1,
        t < 64,
    ensures
        m == (1u64 << t),
        ((1u64 << t) & m) != 0,
        forall|j: u64| j < 64 && m == (1u64 << j) ==> j == t,
{
}

/// A power-of-two mask is the shift of some square index.
pub proof fn lemma_single_bit_has_index(m: u64)
    requires
        m != 0,
        m & vstd::prelude::sub(m, 1) == 0,
    ensures
        exists|t: u64| t < 64 && m == (1u64 << t) && bit64(m, t),
{
    broadcast use vstd::std_specs::bits::axiom_u64_trailing_zeros;

    let t = vstd::std_specs::bits::u64_trailing_zeros(m) as u64;
    lemma_single_bit_index(m, t);
    assert(t < 64 && m == (1u64 << t) && bit64(m, t));
}

/// A single bit that meets a set at all lies wholly inside it.
pub proof fn lemma_single_bit_member(m: u64, set: u64)
    by (bit_vector)
    requires
        m != 0,
        m & vstd::prelude::sub(m, 1) == 0,
        (m & set) != 0,
    ensures
        (m & set) == m,
{
}

/// A bit of a set with one single bit removed is a bit of the set.
pub proof fn lemma_bit_in_diff(moves: u64, m: u64, j: u64)
    by (bit_vector)
    requires
        j < 64,
        ((moves ^ m) >> j) & 1 == 1,
        m & moves == m,
        m & vstd::prelude::sub(m, 1) == 0,
        m != 0,
    ensures
        (moves >> j) & 1 == 1,
{
}

/// A single bit of a set other than its lowest stays once the lowest is
/// removed.
pub proof fn lemma_other_bit_stays(m: u64, moves: u64, low: u64)
    by (bit_vector)
    requires
        m != 0,
        m & vstd::prelude::sub(m, 1) == 0,
        m & moves == m,
        low == lowest_bit(moves),
        m != low,
    ensures
        m & (moves ^ low) == m,
        (moves ^ low) != 0,
{
}

/// The empty mask holds no stones.
pub proof fn lemma_popcount_zero()
    ensures
        popcount(0u64) == 0,
{
    assert(forall|i: u64| i < 64 ==> !bit64(0u64, i)) by (bit_vector);
    lemma_pop_below_zero(0u64, 64);
}

/// A nonzero mask holds at least one stone.
pub proof fn lemma_popcount_pos(v: u64)
    requires
        v != 0,
    ensures
        popcount(v) >= 1,
{
    lemma_lowest_bit(v);
    lemma_popcount_remove_subset(v, lowest_bit(v));
}

/// Stones of `v` with the stones of `f` removed, counted: taking a subset
/// `f` out of `v` removes exactly `popcount(f)` stones.
pub proof fn lemma_popcount_remove_subset(v: u64, f: u64)
    requires
        v & f == f,
    ensures
        popcount(v ^ f) == popcount(v) - popcount(f),
        (v ^ f) & f == 0,
{
    assert((v & f == f) ==> ((v ^ f) & f == 0) && ((v ^ f) | f) == v) by (bit_vector);
    lemma_popcount_disjoint_or(v ^ f, f);
}

proof fn lemma_pop_below_full(n: nat)
    requires
        n <= 64,
    ensures
        pop_below(0xffff_ffff_ffff_ffffu64, n) == n,
    decreases n,
{
    if n > 0 {
        lemma_pop_below_full((n - 1) as nat);
        let i = (n - 1) as u64;
        assert(i < 64 ==> (0xffff_ffff_ffff_ffffu64 >> i) & 1 == 1) by (bit_vector);
    }
}

/// The full board mask holds 64 stones.
pub proof fn lemma_popcount_max()
    ensures
        popcount(0xffff_ffff_ffff_ffffu64) == 64,
{
    lemma_pop_below_full(64);
}

/// A mask and its complement split the 64 squares between them.
pub proof fn lemma_popcount_neg(v: u64)
    ensures
        popcount(!v) == 64 - popcount(v),
{
    assert(v & !v == 0 && (v | !v) == 0xffff_ffff_ffff_ffffu64) by (bit_vector);
    lemma_popcount_disjoint_or(v, !v);
    lemma_popcount_max();
}

/// Counts the set bits of `v`.
pub fn count_bits(v: u64) -> (r: u32)
    ensures
        r == popcount(v),
{
    let mut i: u64 = 0;
    let mut c: u32 = 0;
    while i < 64
        invariant
            i <= 64,
            c == pop_below(v, i as nat),
            c <= i,
        decreases 64 - i,
    {
        proof {
            lemma_bit_binary(v, i);
        }
        c = c + ((v >> i) & 1) as u32;
        i = i + 1;
    }
    c
}

/// Board square of bit `i` reflected across the main diagonal.
pub open spec fn transpose_index(i: u64) -> u64 {
    (((i % 8) * 8) + i / 8) as u64
}

/// Board square of bit `i` with the row order reversed.
pub open spec fn vertical_mirror_index(i: u64) -> u64 {
    ((7 - i / 8) * 8 + i % 8) as u64
}

/// Board square of bit `i` with the column order reversed.
pub open spec fn horizontal_mirror_index(i: u64) -> u64 {
    ((i / 8) * 8 + (7 - i % 8)) as u64
}

/// The delta-swap computation of the diagonal transpose.
pub open spec fn transpose_spec(b: u64) -> u64 {
    let t0 = (b ^ (b >> 7)) & 0x00aa00aa00aa00aau64;
    let b0 = b ^ t0 ^ (t0 << 7);
    let t1 = (b0 ^ (b0 >> 14)) & 0x0000cccc0000ccccu64;
    let b1 = b0 ^ t1 ^ (t1 << 14);
    let t2 = (b1 ^ (b1 >> 28)) & 0x00000000f0f0f0f0u64;
    b1 ^ t2 ^ (t2 << 28)
}

/// The byte-swap computation of the vertical mirror.
pub open spec fn vertical_mirror_spec(b: u64) -> u64 {
    let b0 = ((b >> 8) & 0x00FF00FF00FF00FFu64) | ((b << 8) & 0xFF00FF00FF00FF00u64);
    let b1 = ((b0 >> 16) & 0x0000FFFF0000FFFFu64) | ((b0 << 16) & 0xFFFF0000FFFF0000u64);
    ((b1 >> 32) & 0x00000000FFFFFFFFu64) | ((b1 << 32) & 0xFFFFFFFF00000000u64)
}

/// The bit-swap computation of the horizontal mirror.
pub open spec fn horizontal_mirror_spec(b: u64) -> u64 {
    let b0 = ((b >> 1) & 0x5555555555555555u64) | ((b << 1) & 0xAAAAAAAAAAAAAAAAu64);
    let b1 = ((b0 >> 2) & 0x3333333333333333u64) | ((b0 << 2) & 0xCCCCCCCCCCCCCCCCu64);
    ((b1 >> 4) & 0x0F0F0F0F0F0F0F0Fu64) | ((b1 << 4) & 0xF0F0F0F0F0F0F0F0u64)
}

proof fn lemma_transpose_permutes(b: u64)
    by (bit_vector)
    ensures
        forall|i: u64| i < 64 ==> #[trigger] bit64(transpose_spec(b), i) == bit64(
            b,
            transpose_index(i),
        ),
{
}

proof fn lemma_vertical_mirror_permutes(b: u64)
    by (bit_vector)
    ensures
        forall|i: u64| i < 64 ==> #[trigger] bit64(vertical_mirror_spec(b), i) == bit64(
            b,
            vertical_mirror_index(i),
        ),
{
}

proof fn lemma_horizontal_mirror_permutes(b: u64)
    by (bit_vector)
    ensures
        forall|i: u64| i < 64 ==> #[trigger] bit64(horizontal_mirror_spec(b), i) == bit64(
            b,
            horizontal_mirror_index(i),
        ),
{
}

/// Reflects a mask across the main diagonal (rows become columns).
pub fn transpose(bit: u64) -> (r: u64)
    ensures
        r == transpose_spec(bit),
        forall|i: u64| i < 64 ==> #[trigger] bit64(r, i) == bit64(bit, transpose_index(i)),
{
    let orig = bit;
    let t = (bit ^ (bit >> 7)) & 0x00aa00aa00aa00aau64;
    let bit = bit ^ t ^ (t << 7);
    let t = (bit ^ (bit >> 14)) & 0x0000cccc0000ccccu64;
    let bit = bit ^ t ^ (t << 14);
    let t = (bit ^ (bit >> 28)) & 0x00000000f0f0f0f0u64;
    let r = bit ^ t ^ (t << 28);
    proof {
        lemma_transpose_permutes(orig);
        assert forall|i: u64| i < 64 implies #[trigger] bit64(r, i) == bit64(
            orig,
            transpose_index(i),
        ) by {
            assert(bit64(transpose_spec(orig), i) == bit64(orig, transpose_index(i)));
        }
    }
    r
}

/// Reverses the row order of a mask (top row becomes bottom row).
pub fn vertical_mirror(bit: u64) -> (r: u64)
    ensures
        r == vertical_mirror_spec(bit),
        forall|i: u64| i < 64 ==> #[trigger] bit64(r, i) == bit64(bit, vertical_mirror_index(i)),
{
    let orig = bit;
    let bit = ((bit >> 8) & 0x00FF00FF00FF00FFu64) | ((bit << 8) & 0xFF00FF00FF00FF00u64);
    let bit = ((bit >> 16) & 0x0000FFFF0000FFFFu64) | ((bit << 16) & 0xFFFF0000FFFF0000u64);
    let r = ((bit >> 32) & 0x00000000FFFFFFFFu64) | ((bit << 32) & 0xFFFFFFFF00000000u64);
    proof {
        lemma_vertical_mirror_permutes(orig);
        assert forall|i: u64| i < 64 implies #[trigger] bit64(r, i) == bit64(
            orig,
            vertical_mirror_index(i),
        ) by {
            assert(bit64(vertical_mirror_spec(orig), i) == bit64(orig, vertical_mirror_index(i)));
        }
    }
    r
}

/// Reverses the column order of a mask (left column becomes right column).
pub fn horizontal_mirror(bit: u64) -> (r: u64)
    ensures
        r == horizontal_mirror_spec(bit),
        forall|i: u64| i < 64 ==> #[trigger] bit64(r, i) == bit64(bit, horizontal_mirror_index(i)),
{
    let orig = bit;
    let bit = ((bit >> 1) & 0x5555555555555555u64) | ((bit << 1) & 0xAAAAAAAAAAAAAAAAu64);
    let bit = ((bit >> 2) & 0x3333333333333333u64) | ((bit << 2) & 0xCCCCCCCCCCCCCCCCu64);
    let r = ((bit >> 4) & 0x0F0F0F0F0F0F0F0Fu64) | ((bit << 4) & 0xF0F0F0F0F0F0F0F0u64);
    proof {
        lemma_horizontal_mirror_permutes(orig);
        assert forall|i: u64| i < 64 implies #[trigger] bit64(r, i) == bit64(
            orig,
            horizontal_mirror_index(i),
        ) by {
            assert(bit64(horizontal_mirror_spec(orig), i) == bit64(
                orig,
                horizontal_mirror_index(i),
            ));
        }
    }
    r
}

/// Round trip: each of the three symmetry transforms is an involution, so
/// applying any one of them twice gives the original mask back.
pub proof fn lemma_transforms_involutive(b: u64)
    ensures
        transpose_spec(transpose_spec(b)) == b,
        vertical_mirror_spec(vertical_mirror_spec(b)) == b,
        horizontal_mirror_spec(horizontal_mirror_spec(b)) == b,
{
    assert(transpose_spec(transpose_spec(b)) == b) by (bit_vector);
    assert(vertical_mirror_spec(vertical_mirror_spec(b)) == b) by (bit_vector);
    assert(horizontal_mirror_spec(horizontal_mirror_spec(b)) == b) by (bit_vector);
}

} // verus!
