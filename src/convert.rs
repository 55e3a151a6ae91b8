//! Integer widths, the bit-level reading of integers, and the integer
//! types that a set converts to and from.
use crate::word::{
    lemma_or_single_bit, lemma_value_ext, lemma_value_shifted_bit, value_bit, wide_bit,
};
use vstd::prelude::*;

verus! {

/// The widths, in bits, of the integer types that a set converts to and from.
pub open spec fn is_int_width(w: nat) -> bool {
    w == 8 || w == 16 || w == 32 || w == 64 || w == 128
}

/// Whether `v` is below `2^w`.
pub open spec fn fits_width(v: u128, w: nat) -> bool {
    w >= 128 || v >> (w as u128) == 0
}

/// The `w` lowest bits of `v`, least significant first.
pub open spec fn bits_of(v: u128, w: nat) -> Seq<bool> {
    Seq::new(w, |i: int| value_bit(v, i))
}

/// Whether every set bit of `s` lies below position `w`.
pub open spec fn fits_in(s: Seq<bool>, w: nat) -> bool {
    forall|i: int| w <= i < s.len() ==> !s[i]
}

/// The integer whose bit `i` is `s[i]` for each `i` below both `n` and the
/// length of `s`, and whose other bits are clear.
pub open spec fn value_of(s: Seq<bool>, n: nat) -> u128
    decreases n,
{
    if n == 0 {
        0
    } else {
        let i = n - 1;
        value_of(s, i as nat) | if i < s.len() && s[i] {
            1u128 << (i as u128)
        } else {
            0u128
        }
    }
}

/// Reading `s` as an integer of `w` bits: its value, where no bit at or
/// above `w` is set.
pub open spec fn read_value(s: Seq<bool>, w: nat) -> Option<u128> {
    if fits_in(s, w) {
        Some(value_of(s, w))
    } else {
        None
    }
}

/// The bits of `value_of(s, n)`.
pub proof fn lemma_value_of_bit(s: Seq<bool>, n: nat, k: int)
    requires
        n <= 128,
        0 <= k < 128,
    ensures
        value_bit(value_of(s, n), k) == (k < n && k < s.len() && s[k]),
    decreases n,
{
    if n > 0 {
        let i = n - 1;
        lemma_value_of_bit(s, i as nat, k);
        lemma_or_single_bit(value_of(s, i as nat), i as u128, k as u128);
    } else {
        let kk = k as u128;
        assert((0u128 >> kk) & 1u128 != 1u128) by (bit_vector);
    }
}

/// `value_of(s, w)` has no set bit at or above `w`.
pub proof fn lemma_value_of_fits(s: Seq<bool>, w: nat)
    requires
        w <= 128,
    ensures
        fits_width(value_of(s, w), w),
{
    if w < 128 {
        let x = value_of(s, w);
        let y = x >> (w as u128);
        assert forall|j: int| 0 <= j < 128 implies value_bit(y, j) == value_bit(0, j) by {
            let jj = j as u128;
            assert((0u128 >> jj) & 1u128 != 1u128) by (bit_vector);
            if wide_bit(y, jj) {
                lemma_value_shifted_bit(x, w as u128, jj);
                lemma_value_of_bit(s, w, w + j);
            }
        }
        lemma_value_ext(y, 0);
    }
}

/// The stored value is not too large for the target type.
#[derive(Debug, Clone, Copy, PartialEq, Eq, Structural)]
pub struct ConversionError;

/// An unsigned integer type of a fixed width of 8 to 128 bits.
pub trait FixedWidth: Sized {
    /// The width in bits.
    spec fn spec_width() -> nat;

    /// The value, widened to 128 bits.
    spec fn spec_wide(self) -> u128;

    /// The value of this type that widens to `v`, for `v` that fits.
    spec fn spec_narrow(v: u128) -> Self;

    fn width() -> (r: usize)
        ensures
            r == Self::spec_width(),
            is_int_width(r as nat),
    ;

    fn widen(self) -> (r: u128)
        ensures
            r == self.spec_wide(),
            fits_width(r, Self::spec_width()),
    ;

    fn narrow(v: u128) -> (r: Self)
        requires
            fits_width(v, Self::spec_width()),
        ensures
            r == Self::spec_narrow(v),
            r.spec_wide() == v,
    ;
}

impl FixedWidth for u8 {
    open spec fn spec_width() -> nat {
        8
    }

    open spec fn spec_wide(self) -> u128 {
        self as u128
    }

    open spec fn spec_narrow(v: u128) -> u8 {
        v as u8
    }

    fn width() -> (r: usize) {
        8
    }

    fn widen(self) -> (r: u128) {
        let r = self as u128;
        assert(r >> 8u128 == 0) by (bit_vector)
            requires
                r == self as u128,
        ;
        r
    }

    fn narrow(v: u128) -> (r: u8) {
        assert(v as u8 as u128 == v) by (bit_vector)
            requires
                v >> 8u128 == 0,
        ;
        v as u8
    }
}

impl FixedWidth for u16 {
    open spec fn spec_width() -> nat {
        16
    }

    open spec fn spec_wide(self) -> u128 {
        self as u128
    }

    open spec fn spec_narrow(v: u128) -> u16 {
        v as u16
    }

    fn width() -> (r: usize) {
        16
    }

    fn widen(self) -> (r: u128) {
        let r = self as u128;
        assert(r >> 16u128 == 0) by (bit_vector)
            requires
                r == self as u128,
        ;
        r
    }

    fn narrow(v: u128) -> (r: u16) {
        assert(v as u16 as u128 == v) by (bit_vector)
            requires
                v >> 16u128 == 0,
        ;
        v as u16
    }
}

impl FixedWidth for u32 {
    open spec fn spec_width() -> nat {
        32
    }

    open spec fn spec_wide(self) -> u128 {
        self as u128
    }

    open spec fn spec_narrow(v: u128) -> u32 {
        v as u32
    }

    fn width() -> (r: usize) {
        32
    }

    fn widen(self) -> (r: u128) {
        let r = self as u128;
        assert(r >> 32u128 == 0) by (bit_vector)
            requires
                r == self as u128,
        ;
        r
    }

    fn narrow(v: u128) -> (r: u32) {
        assert(v as u32 as u128 == v) by (bit_vector)
            requires
                v >> 32u128 == 0,
        ;
        v as u32
    }
}

impl FixedWidth for u64 {
    open spec fn spec_width() -> nat {
        64
    }

    open spec fn spec_wide(self) -> u128 {
        self as u128
    }

    open spec fn spec_narrow(v: u128) -> u64 {
        v as u64
    }

    fn width() -> (r: usize) {
        64
    }

    fn widen(self) -> (r: u128) {
        let r = self as u128;
        assert(r >> 64u128 == 0) by (bit_vector)
            requires
                r == self as u128,
        ;
        r
    }

    fn narrow(v: u128) -> (r: u64) {
        assert(v as u64 as u128 == v) by (bit_vector)
            requires
                v >> 64u128 == 0,
        ;
        v as u64
    }
}

impl FixedWidth for u128 {
    open spec fn spec_width() -> nat {
        128
    }

    open spec fn spec_wide(self) -> u128 {
        self
    }

    open spec fn spec_narrow(v: u128) -> u128 {
        v
    }

    fn width() -> (r: usize) {
        128
    }

    fn widen(self) -> (r: u128) {
        self
    }

    fn narrow(v: u128) -> (r: u128) {
        v
    }
}

impl FixedWidth for usize {
    open spec fn spec_width() -> nat {
        if usize::MAX == u64::MAX {
            64
        } else {
            32
        }
    }

    open spec fn spec_wide(self) -> u128 {
        self as u128
    }

    open spec fn spec_narrow(v: u128) -> usize {
        v as usize
    }

    fn width() -> (r: usize) {
        if usize::MAX as u128 == u64::MAX as u128 {
            64
        } else {
            32
        }
    }

    fn widen(self) -> (r: u128) {
        let r = self as u128;
        if usize::MAX as u128 == u64::MAX as u128 {
            assert(r >> 64u128 == 0) by (bit_vector)
                requires
                    r <= 0xffff_ffff_ffff_ffffu128,
            ;
        } else {
            assert(r >> 32u128 == 0) by (bit_vector)
                requires
                    r <= 0xffff_ffffu128,
            ;
        }
        r
    }

    fn narrow(v: u128) -> (r: usize) {
        if usize::MAX as u128 == u64::MAX as u128 {
            assert(v <= 0xffff_ffff_ffff_ffffu128) by (bit_vector)
                requires
                    v >> 64u128 == 0,
            ;
        } else {
            assert(v <= 0xffff_ffffu128) by (bit_vector)
                requires
                    v >> 32u128 == 0,
            ;
        }
        v as usize
    }
}

} // verus!
