//! Bit-level facts about single storage blocks (`u64`) and about the
//! widest integer values (`u128`) that a set converts to and from.
use vstd::prelude::*;

verus! {

/// Number of bits in one storage block.
pub const BLOCK_BITS: usize = 64;

/// Bit `k` of a block, counted from the least significant end.
pub open spec fn block_bit(w: u64, k: u64) -> bool {
    (w >> k) & 1u64 == 1u64
}

/// The block whose `n` lowest bits are set and whose other bits are clear.
pub open spec fn low_ones(n: u64) -> u64 {
    if n >= 64 {
        u64::MAX
    } else {
        ((1u64 << n) - 1u64) as u64
    }
}

/// Bit `k` of a 128-bit value, counted from the least significant end.
pub open spec fn wide_bit(v: u128, k: u128) -> bool {
    (v >> k) & 1u128 == 1u128
}

/// Bit `k` of a 128-bit value; clear for `k` outside `0..128`.
pub open spec fn value_bit(v: u128, k: int) -> bool {
    0 <= k < 128 && wide_bit(v, k as u128)
}

/// The 128-bit value whose low half is `lo` and whose high half is `hi`.
pub open spec fn join_halves(lo: u64, hi: u64) -> u128 {
    (lo as u128) | ((hi as u128) << 64u128)
}

pub proof fn lemma_zero_block_bit(k: u64)
    ensures
        !block_bit(0, k),
{
    assert((0u64 >> k) & 1u64 == 0u64) by (bit_vector);
}

pub proof fn lemma_mask_test(w: u64, k: u64)
    requires
        k < 64,
    ensures
        (w & (1u64 << k) != 0u64) == block_bit(w, k),
{
    assert((w & (1u64 << k) != 0u64) == ((w >> k) & 1u64 == 1u64)) by (bit_vector)
        requires
            k < 64,
    ;
}

pub proof fn lemma_set_block_bit(w: u64, k: u64, j: u64)
    requires
        k < 64,
        j < 64,
    ensures
        block_bit(w | (1u64 << k), j) == (j == k || block_bit(w, j)),
        block_bit(w & !(1u64 << k), j) == (j != k && block_bit(w, j)),
{
    assert(((w | (1u64 << k)) >> j) & 1u64 == 1u64 <==> (j == k || (w >> j) & 1u64
        == 1u64)) by (bit_vector)
        requires
            k < 64,
            j < 64,
    ;
    assert(((w & !(1u64 << k)) >> j) & 1u64 == 1u64 <==> (j != k && (w >> j) & 1u64
        == 1u64)) by (bit_vector)
        requires
            k < 64,
            j < 64,
    ;
}

pub proof fn lemma_low_ones_bit(n: u64, k: u64)
    requires
        n <= 64,
        k < 64,
    ensures
        block_bit(low_ones(n), k) == (k < n),
{
    if n == 64 {
        assert((u64::MAX >> k) & 1u64 == 1u64) by (bit_vector)
            requires
                k < 64,
        ;
    } else {
        assert(((((1u64 << n) - 1u64) as u64) >> k) & 1u64 == 1u64 <==> k < n)
            by (bit_vector)
            requires
                n < 64,
                k < 64,
        ;
    }
}

proof fn lemma_low_agree_step(a: u64, b: u64, n: u64)
    requires
        n < 64,
        a & low_ones(n) == b & low_ones(n),
        block_bit(a, n) == block_bit(b, n),
    ensures
        a & low_ones((n + 1) as u64) == b & low_ones((n + 1) as u64),
{
    let m = (n + 1) as u64;
    if m == 64 {
        assert(a & u64::MAX == b & u64::MAX) by (bit_vector)
            requires
                n == 63,
                a & (((1u64 << n) - 1u64) as u64) == b & (((1u64 << n) - 1u64) as u64),
                ((a >> n) & 1u64 == 1u64) == ((b >> n) & 1u64 == 1u64),
        ;
    } else {
        assert(a & (((1u64 << m) - 1u64) as u64) == b & (((1u64 << m) - 1u64) as u64))
            by (bit_vector)
            requires
                n < 63,
                m == n + 1,
                a & (((1u64 << n) - 1u64) as u64) == b & (((1u64 << n) - 1u64) as u64),
                ((a >> n) & 1u64 == 1u64) == ((b >> n) & 1u64 == 1u64),
        ;
    }
}

proof fn lemma_low_agree(a: u64, b: u64, n: u64)
    requires
        n <= 64,
        forall|k: u64| k < n ==> block_bit(a, k) == block_bit(b, k),
    ensures
        a & low_ones(n) == b & low_ones(n),
    decreases n,
{
    if n == 0 {
        assert(a & (((1u64 << 0u64) - 1u64) as u64) == b & (((1u64 << 0u64)
            - 1u64) as u64)) by (bit_vector);
    } else {
        lemma_low_agree(a, b, (n - 1) as u64);
        lemma_low_agree_step(a, b, (n - 1) as u64);
    }
}

/// Two blocks with the same bits are the same block.
pub proof fn lemma_block_ext(a: u64, b: u64)
    requires
        forall|k: u64| k < 64 ==> block_bit(a, k) == block_bit(b, k),
    ensures
        a == b,
{
    lemma_low_agree(a, b, 64);
    assert(a & u64::MAX == a && b & u64::MAX == b) by (bit_vector);
}

/// Two different blocks differ in some bit.
pub proof fn lemma_block_differs(a: u64, b: u64)
    requires
        a != b,
    ensures
        exists|k: u64| k < 64 && block_bit(a, k) != block_bit(b, k),
{
    if forall|k: u64| k < 64 ==> block_bit(a, k) == block_bit(b, k) {
        lemma_block_ext(a, b);
    }
}

/// A block other than zero has a set bit.
pub proof fn lemma_nonzero_block(w: u64)
    requires
        w != 0,
    ensures
        exists|k: u64| k < 64 && block_bit(w, k),
{
    if forall|k: u64| k < 64 ==> !block_bit(w, k) {
        assert forall|k: u64| k < 64 implies block_bit(w, k) == block_bit(0, k) by {
            lemma_zero_block_bit(k);
        }
        lemma_block_ext(w, 0);
    }
}


pub proof fn lemma_shift_clears_bit(w: u64, n: u64, k: u64)
    requires
        n <= k < 64,
        w >> n == 0,
    ensures
        !block_bit(w, k),
{
    assert((w >> k) & 1u64 != 1u64) by (bit_vector)
        requires
            n <= k < 64,
            w >> n == 0,
    ;
}

pub proof fn lemma_shifted_bit(w: u64, n: u64, j: u64)
    requires
        n < 64,
        j < 64,
        block_bit(w >> n, j),
    ensures
        n + j < 64,
        block_bit(w, (n + j) as u64),
{
    assert(n + j < 64 && (w >> ((n + j) as u64)) & 1u64 == 1u64) by (bit_vector)
        requires
            n < 64,
            j < 64,
            ((w >> n) >> j) & 1u64 == 1u64,
    ;
}

pub proof fn lemma_join_halves_bit(lo: u64, hi: u64, k: u64)
    requires
        k < 64,
    ensures
        wide_bit(join_halves(lo, hi), k as u128) == block_bit(lo, k),
        wide_bit(join_halves(lo, hi), (k + 64) as u128) == block_bit(hi, k),
{
    assert((((lo as u128) | ((hi as u128) << 64u128)) >> (k as u128)) & 1u128 == 1u128 <==> (lo
        >> k) & 1u64 == 1u64) by (bit_vector)
        requires
            k < 64,
    ;
    assert((((lo as u128) | ((hi as u128) << 64u128)) >> ((k + 64) as u128)) & 1u128 == 1u128
        <==> (hi >> k) & 1u64 == 1u64) by (bit_vector)
        requires
            k < 64,
    ;
}

pub proof fn lemma_split_halves_bit(v: u128, k: u64)
    requires
        k < 64,
    ensures
        wide_bit(v, k as u128) == block_bit(v as u64, k),
        wide_bit(v, (k + 64) as u128) == block_bit((v >> 64u128) as u64, k),
{
    assert((v >> (k as u128)) & 1u128 == 1u128 <==> ((v as u64) >> k) & 1u64 == 1u64)
        by (bit_vector)
        requires
            k < 64,
    ;
    assert((v >> ((k + 64) as u128)) & 1u128 == 1u128 <==> (((v >> 64u128) as u64) >> k) & 1u64
        == 1u64) by (bit_vector)
        requires
            k < 64,
    ;
}

/// Two 128-bit values with the same bits are the same value.
pub proof fn lemma_value_ext(a: u128, b: u128)
    requires
        forall|k: int| 0 <= k < 128 ==> value_bit(a, k) == value_bit(b, k),
    ensures
        a == b,
{
    assert forall|k: u64| k < 64 implies #[trigger] block_bit(a as u64, k) == block_bit(b as u64, k) by {
        lemma_split_halves_bit(a, k);
        lemma_split_halves_bit(b, k);
        assert(value_bit(a, k as int) == value_bit(b, k as int));
    }
    assert forall|k: u64| k < 64 implies #[trigger] block_bit((a >> 64u128) as u64, k) == block_bit(
        (b >> 64u128) as u64,
        k,
    ) by {
        lemma_split_halves_bit(a, k);
        lemma_split_halves_bit(b, k);
        assert(value_bit(a, k + 64) == value_bit(b, k + 64));
    }
    lemma_block_ext(a as u64, b as u64);
    lemma_block_ext((a >> 64u128) as u64, (b >> 64u128) as u64);
    assert(a == b) by (bit_vector)
        requires
            a as u64 == b as u64,
            (a >> 64u128) as u64 == (b >> 64u128) as u64,
    ;
}

/// A 128-bit value other than zero has a set bit.
pub proof fn lemma_nonzero_value(v: u128)
    requires
        v != 0,
    ensures
        exists|k: int| 0 <= k < 128 && value_bit(v, k),
{
    if forall|k: int| 0 <= k < 128 ==> !value_bit(v, k) {
        assert forall|k: int| 0 <= k < 128 implies value_bit(v, k) == value_bit(0, k) by {
            let kk = k as u128;
            assert((0u128 >> kk) & 1u128 == 0u128) by (bit_vector);
        }
        lemma_value_ext(v, 0);
    }
}

pub proof fn lemma_value_shift_clears_bit(v: u128, n: u128, k: u128)
    requires
        n <= k < 128,
        v >> n == 0,
    ensures
        !wide_bit(v, k),
{
    assert((v >> k) & 1u128 != 1u128) by (bit_vector)
        requires
            n <= k < 128,
            v >> n == 0,
    ;
}

pub proof fn lemma_value_shifted_bit(v: u128, n: u128, j: u128)
    requires
        n < 128,
        j < 128,
        wide_bit(v >> n, j),
    ensures
        n + j < 128,
        wide_bit(v, (n + j) as u128),
{
    assert(n + j < 128 && (v >> ((n + j) as u128)) & 1u128 == 1u128) by (bit_vector)
        requires
            n < 128,
            j < 128,
            ((v >> n) >> j) & 1u128 == 1u128,
    ;
}

pub proof fn lemma_or_single_bit(a: u128, i: u128, k: u128)
    requires
        i < 128,
        k < 128,
    ensures
        wide_bit(a | (1u128 << i), k) == (wide_bit(a, k) || k == i),
        a | 0u128 == a,
{
    assert(((a | (1u128 << i)) >> k) & 1u128 == 1u128 <==> ((a >> k) & 1u128 == 1u128 || k == i))
        by (bit_vector)
        requires
            i < 128,
            k < 128,
    ;
    assert(a | 0u128 == a) by (bit_vector);
}

} // verus!
