//! General facts about the set's operations, stated over the views that
//! their contracts use.
use crate::bitset::BitSet;
use crate::convert::{
    bits_of, fits_in, fits_width, is_int_width, lemma_value_of_bit, read_value, value_of,
};
use crate::word::{
    lemma_nonzero_value, lemma_value_ext, lemma_value_shift_clears_bit, lemma_value_shifted_bit,
    value_bit,
};
use vstd::prelude::*;

verus! {

/// The largest value of `w` bits: its `w` lowest bits set.
pub open spec fn max_value(w: nat) -> u128 {
    if w >= 128 {
        u128::MAX
    } else {
        ((1u128 << (w as u128)) - 1u128) as u128
    }
}

/// After `set(p, v)`, bit `p` reads `v` and every other bit reads as it
/// did before.
pub proof fn lemma_set_then_get(b: BitSet, p: int, v: bool, q: int)
    requires
        0 <= p < b@.len(),
        0 <= q < b@.len(),
    ensures
        b@.update(p, v)[p] == v,
        q != p ==> b@.update(p, v)[q] == b@[q],
        b@.update(p, v).len() == b@.len(),
{
}

/// An integer of `source` bits, put into a set and read back as an integer
/// of `target` bits, comes back unchanged where it fits in `target` bits;
/// where it does not, the reading fails.
pub proof fn lemma_round_trip(v: u128, source: nat, target: nat)
    requires
        is_int_width(source),
        is_int_width(target),
        fits_width(v, source),
    ensures
        read_value(bits_of(v, source), target) == if fits_width(v, target) {
            Some(v)
        } else {
            None
        },
{
    let s = bits_of(v, source);
    if fits_width(v, target) {
        assert forall|i: int| target <= i < s.len() implies !s[i] by {
            lemma_value_shift_clears_bit(v, target as u128, i as u128);
        }
        assert forall|k: int| 0 <= k < 128 implies value_bit(value_of(s, target), k) == value_bit(
            v,
            k,
        ) by {
            lemma_value_of_bit(s, target, k);
            if k >= target {
                lemma_value_shift_clears_bit(v, target as u128, k as u128);
            }
            if k >= source {
                lemma_value_shift_clears_bit(v, source as u128, k as u128);
            }
        }
        lemma_value_ext(value_of(s, target), v);
    } else {
        let y = v >> (target as u128);
        lemma_nonzero_value(y);
        let j = choose|j: int| 0 <= j < 128 && value_bit(y, j);
        lemma_value_shifted_bit(v, target as u128, j as u128);
        let i = target + j;
        if source < 128 && i >= source {
            lemma_value_shift_clears_bit(v, source as u128, i as u128);
        }
        assert(s[i]);
        assert(!fits_in(s, target));
    }
}

/// A set holding the largest value of its width has every bit set, and
/// clearing any one of its bits leaves it with a clear bit.
pub proof fn lemma_max_value_all(width: nat, p: int)
    requires
        is_int_width(width),
        0 <= p < width,
    ensures
        forall|i: int| 0 <= i < width ==> bits_of(max_value(width), width)[i],
        !(forall|i: int| 0 <= i < width ==> bits_of(max_value(width), width).update(p, false)[i]),
{
    assert forall|i: int| 0 <= i < width implies bits_of(max_value(width), width)[i] by {
        let k = i as u128;
        if width >= 128 {
            assert((u128::MAX >> k) & 1u128 == 1u128) by (bit_vector)
                requires
                    k < 128,
            ;
        } else {
            let w = width as u128;
            assert(((((1u128 << w) - 1u128) as u128) >> k) & 1u128 == 1u128) by (bit_vector)
                requires
                    k < w,
                    w < 128,
            ;
        }
    }
    assert(!bits_of(max_value(width), width).update(p, false)[p]);
}

} // verus!
