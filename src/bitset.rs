//! The bit vector itself: storage layout, bit addressing and queries.
use crate::convert::{
    bits_of, fits_in, fits_width, is_int_width, lemma_value_of_bit, lemma_value_of_fits, read_value,
    value_of, ConversionError, FixedWidth,
};
use crate::word::{
    block_bit, join_halves, lemma_block_differs, lemma_join_halves_bit, lemma_low_ones_bit,
    lemma_mask_test, lemma_nonzero_block, lemma_set_block_bit, lemma_shift_clears_bit,
    lemma_shifted_bit, lemma_split_halves_bit, lemma_value_ext, lemma_value_shift_clears_bit,
    lemma_zero_block_bit, low_ones, value_bit, BLOCK_BITS,
};
use vstd::prelude::*;
use vstd::string::StringExecFns;

verus! {

/// The character that shows one bit.
pub open spec fn bit_char(b: bool) -> char {
    if b {
        '1'
    } else {
        '0'
    }
}

/// Number of set bits in `s`.
pub open spec fn count_true(s: Seq<bool>) -> nat
    decreases s.len(),
{
    if s.len() == 0 {
        0
    } else {
        count_true(s.drop_last()) + if s.last() {
            1nat
        } else {
            0nat
        }
    }
}

/// Number of blocks that hold `size` bits: `size / 64`, rounded up.
pub open spec fn blocks_for(size: nat) -> nat {
    (size + 63) / 64
}

/// A fixed number of bits, packed into 64-bit blocks; block 0 holds bits
/// 0 to 63, block 1 bits 64 to 127, and so on.
pub struct BitSet {
    blocks: Vec<u64>,
    size: usize,
}

impl View for BitSet {
    type V = Seq<bool>;

    /// Bit `i` of the set is element `i`; the length is the set's size.
    closed spec fn view(&self) -> Seq<bool> {
        Seq::new(self.size as nat, |i: int| self.stored_bit(i))
    }
}

impl BitSet {
    /// Bit `i` as stored: bit `i % 64` of block `i / 64`.
    closed spec fn stored_bit(&self, i: int) -> bool {
        block_bit(self.blocks@[i / 64], (i % 64) as u64)
    }

    /// The number of blocks in use.
    pub closed spec fn spec_block_count(&self) -> nat {
        self.blocks@.len()
    }

    /// Well-formed: at least one bit, exactly as many blocks as the size
    /// needs, and every bit of the last block past the size clear.
    pub closed spec fn wf(&self) -> bool {
        &&& self.size >= 1
        &&& self.blocks@.len() == blocks_for(self.size as nat)
        &&& forall|i: int|
            self.size <= i < self.blocks@.len() * 64 ==> !#[trigger] self.stored_bit(i)
    }

    /// Number of blocks needed for `size` bits.
    pub fn blocks_number(size: usize) -> (r: usize)
        ensures
            r == blocks_for(size as nat),
    {
        let div = size / BLOCK_BITS;
        let rem = size % BLOCK_BITS;
        if rem == 0 {
            div
        } else {
            div + 1
        }
    }

    /// Number of bits in one block.
    pub fn block_size() -> (r: usize)
        ensures
            r == 64,
    {
        BLOCK_BITS
    }

    /// A set of `size` bits, all clear.
    pub fn new(size: usize) -> (r: BitSet)
        requires
            size >= 1,
        ensures
            r.wf(),
            r@ == Seq::new(size as nat, |i: int| false),
            r.spec_block_count() == blocks_for(size as nat),
    {
        let blocks_number = Self::blocks_number(size);
        let mut blocks: Vec<u64> = Vec::with_capacity(blocks_number);
        let mut n: usize = 0;
        while n < blocks_number
            invariant
                n <= blocks_number,
                blocks@.len() == n,
                forall|j: int| 0 <= j < n ==> blocks@[j] == 0u64,
            decreases blocks_number - n,
        {
            blocks.push(0);
            n += 1;
        }
        let r = BitSet { blocks, size };
        assert forall|i: int| 0 <= i < r.blocks@.len() * 64 implies !#[trigger] r.stored_bit(
            i,
        ) by {
            lemma_zero_block_bit((i % 64) as u64);
        }
        assert(r@ =~= Seq::new(size as nat, |i: int| false));
        r
    }

    /// Number of bits in the set.
    pub fn size(&self) -> (r: usize)
        ensures
            r == self@.len(),
    {
        self.size
    }

    /// Number of blocks in use.
    pub fn block_count(&self) -> (r: usize)
        ensures
            r == self.spec_block_count(),
    {
        self.blocks.len()
    }

    /// Bit `position`; the position must be below the size.
    pub fn get(&self, position: usize) -> (r: bool)
        requires
            self.wf(),
            position < self@.len(),
        ensures
            r == self@[position as int],
    {
        let block_number = position / BLOCK_BITS;
        let block_offset = (position % BLOCK_BITS) as u64;
        let bitmask = 1u64 << block_offset;
        proof {
            lemma_mask_test(self.blocks@[block_number as int], block_offset);
        }
        self.blocks[block_number] & bitmask != 0
    }

    /// Sets bit `position` to `value`; the position must be below the size.
    pub fn set(&mut self, position: usize, value: bool)
        requires
            old(self).wf(),
            position < old(self)@.len(),
        ensures
            final(self).wf(),
            final(self)@ == old(self)@.update(position as int, value),
            final(self).spec_block_count() == old(self).spec_block_count(),
    {
        let block_number = position / BLOCK_BITS;
        let block_offset = (position % BLOCK_BITS) as u64;
        let bitmask = 1u64 << block_offset;
        let ghost w = self.blocks@[block_number as int];
        if value {
            self.blocks.set(block_number, self.blocks[block_number] | bitmask);
        } else {
            self.blocks.set(block_number, self.blocks[block_number] & !bitmask);
        }
        proof {
            assert forall|i: int| 0 <= i < self.blocks@.len() * 64 implies #[trigger] self.stored_bit(i)
                == if i == position { value } else { old(self).stored_bit(i) } by {
                if i / 64 == block_number as int {
                    lemma_set_block_bit(w, block_offset, (i % 64) as u64);
                }
            }
            assert(self@ =~= old(self)@.update(position as int, value));
        }
    }

    /// Whether every bit of the set is set. Only the bits below the size
    /// take part: the clear bits of the last block past the size do not.
    pub fn all(&self) -> (r: bool)
        requires
            self.wf(),
        ensures
            r == forall|i: int| 0 <= i < self@.len() ==> self@[i],
    {
        let n = self.blocks.len();
        let mut b: usize = 0;
        while b + 1 < n
            invariant
                self.wf(),
                n == self.blocks@.len(),
                b < n,
                forall|i: int| 0 <= i < b * 64 ==> #[trigger] self.stored_bit(i),
            decreases n - b,
        {
            let w = self.blocks[b];
            if w != u64::MAX {
                proof {
                    lemma_block_differs(w, u64::MAX);
                    let k = choose|k: u64| k < 64 && block_bit(w, k) != block_bit(u64::MAX, k);
                    lemma_low_ones_bit(64, k);
                    let i = b * 64 + k;
                    assert(!self.stored_bit(i));
                    assert(!self@[i]);
                }
                return false;
            }
            proof {
                assert forall|i: int| 0 <= i < (b + 1) * 64 implies #[trigger] self.stored_bit(
                    i,
                ) by {
                    if i >= b * 64 {
                        lemma_low_ones_bit(64, (i % 64) as u64);
                    }
                }
            }
            b += 1;
        }
        let rem = self.size - b * BLOCK_BITS;
        let mask: u64 = if rem >= 64 {
            u64::MAX
        } else {
            let sh = rem as u64;
            assert(1u64 << sh >= 1u64) by (bit_vector)
                requires
                    sh < 64,
            ;
            (1u64 << sh) - 1
        };
        assert(mask == low_ones(rem as u64));
        let w = self.blocks[b];
        let r = w == mask;
        proof {
            if r {
                assert forall|i: int| 0 <= i < self@.len() implies self@[i] by {
                    if i >= b * 64 {
                        lemma_low_ones_bit(rem as u64, (i % 64) as u64);
                    }
                }
            } else {
                lemma_block_differs(w, mask);
                let k = choose|k: u64| k < 64 && block_bit(w, k) != block_bit(mask, k);
                lemma_low_ones_bit(rem as u64, k);
                let i = b * 64 + k;
                assert(self.stored_bit(i) == block_bit(w, k));
                assert(!self@[i]);
            }
        }
        r
    }

    /// Whether some bit of the set is set.
    pub fn any(&self) -> (r: bool)
        requires
            self.wf(),
        ensures
            r == exists|i: int| 0 <= i < self@.len() && self@[i],
    {
        let n = self.blocks.len();
        let mut b: usize = 0;
        while b < n
            invariant
                self.wf(),
                n == self.blocks@.len(),
                b <= n,
                forall|i: int| 0 <= i < b * 64 ==> !#[trigger] self.stored_bit(i),
            decreases n - b,
        {
            let w = self.blocks[b];
            if w != 0 {
                proof {
                    lemma_nonzero_block(w);
                    let k = choose|k: u64| k < 64 && block_bit(w, k);
                    let i = b * 64 + k;
                    assert(self.stored_bit(i));
                    assert(self@[i]);
                }
                return true;
            }
            proof {
                assert forall|i: int| 0 <= i < (b + 1) * 64 implies !#[trigger] self.stored_bit(
                    i,
                ) by {
                    if i >= b * 64 {
                        lemma_zero_block_bit((i % 64) as u64);
                    }
                }
            }
            b += 1;
        }
        proof {
            assert forall|i: int| 0 <= i < self@.len() implies !self@[i] by {
                assert(!self.stored_bit(i));
            }
        }
        false
    }

    /// Number of set bits.
    pub fn count(&self) -> (r: usize)
        requires
            self.wf(),
        ensures
            r == count_true(self@),
    {
        let mut res: usize = 0;
        let mut i: usize = 0;
        while i < self.size
            invariant
                self.wf(),
                i <= self@.len(),
                res == count_true(self@.take(i as int)),
                res <= i,
            decreases self.size - i,
        {
            let bit = self.get(i);
            proof {
                assert(self@.take(i + 1).drop_last() =~= self@.take(i as int));
            }
            if bit {
                res += 1;
            }
            i += 1;
        }
        assert(self@.take(i as int) =~= self@);
        res
    }

    /// The bits as text, most significant first: one `'0'` or `'1'` per bit.
    pub fn to_string(&self) -> (r: String)
        requires
            self.wf(),
        ensures
            r@.len() == self@.len(),
            forall|j: int| 0 <= j < r@.len() ==> r@[j] == bit_char(self@[self@.len() - 1 - j]),
    {
        let mut res = String::new();
        let mut j: usize = 0;
        while j < self.size
            invariant
                self.wf(),
                j <= self@.len(),
                res@.len() == j,
                forall|t: int| 0 <= t < j ==> res@[t] == bit_char(self@[self@.len() - 1 - t]),
            decreases self.size - j,
        {
            proof {
                reveal_strlit("0");
                reveal_strlit("1");
            }
            if self.get(self.size - 1 - j) {
                res.append("1");
            } else {
                res.append("0");
            }
            j += 1;
        }
        res
    }

    /// The set of `width` bits holding `value`.
    fn from_wide(value: u128, width: usize) -> (r: BitSet)
        requires
            is_int_width(width as nat),
            fits_width(value, width as nat),
        ensures
            r.wf(),
            r@ == bits_of(value, width as nat),
            r.spec_block_count() == blocks_for(width as nat),
    {
        let mut blocks: Vec<u64> = Vec::new();
        blocks.push(value as u64);
        if width > 64 {
            blocks.push((value >> 64u128) as u64);
        }
        let r = BitSet { blocks, size: width };
        proof {
            assert forall|i: int| 0 <= i < width implies #[trigger] r.stored_bit(i) == value_bit(
                value,
                i,
            ) by {
                lemma_split_halves_bit(value, (i % 64) as u64);
            }
            assert forall|i: int| width <= i < r.blocks@.len() * 64 implies !#[trigger] r.stored_bit(
                i,
            ) by {
                lemma_split_halves_bit(value, i as u64);
                lemma_value_shift_clears_bit(value, width as u128, i as u128);
            }
            assert(r@ =~= bits_of(value, width as nat));
        }
        r
    }

    /// The stored bits as an integer of `width` bits, if no bit at or above
    /// `width` is set.
    fn read_wide(&self, width: usize) -> (r: Option<u128>)
        requires
            self.wf(),
            is_int_width(width as nat),
        ensures
            r == read_value(self@, width as nat),
    {
        let need: usize = if width > 64 {
            2
        } else {
            1
        };
        let n = self.blocks.len();
        let mut b: usize = need;
        while b < n
            invariant
                self.wf(),
                is_int_width(width as nat),
                n == self.blocks@.len(),
                need == (if width > 64 {
                    2usize
                } else {
                    1usize
                }),
                need <= b,
                forall|i: int| need * 64 <= i < b * 64 ==> !#[trigger] self.stored_bit(i),
            decreases n - b,
        {
            let w = self.blocks[b];
            if w != 0 {
                proof {
                    lemma_nonzero_block(w);
                    let k = choose|k: u64| k < 64 && block_bit(w, k);
                    let i = b * 64 + k;
                    assert(need * 64 <= i < n * 64) by (nonlinear_arith)
                        requires
                            need <= b < n,
                            k < 64,
                            i == b * 64 + k,
                    ;
                    assert(self.stored_bit(i));
                    assert(i < self@.len());
                    assert(self@[i]);
                    assert(width <= i);
                    assert(!fits_in(self@, width as nat));
                }
                return None;
            }
            proof {
                assert forall|i: int| need * 64 <= i < (b + 1) * 64 implies !#[trigger] self.stored_bit(
                    i,
                ) by {
                    if i >= b * 64 {
                        lemma_zero_block_bit((i % 64) as u64);
                    }
                }
            }
            b += 1;
        }
        let lo = self.blocks[0];
        if width < 64 {
            let sh = width as u64;
            if lo >> sh != 0 {
                proof {
                    lemma_nonzero_block(lo >> sh);
                    let j = choose|j: u64| j < 64 && block_bit(lo >> sh, j);
                    lemma_shifted_bit(lo, sh, j);
                    let i = (sh + j) as int;
                    assert(self.stored_bit(i));
                    assert(self@[i] && width <= i);
                    assert(!fits_in(self@, width as nat));
                }
                return None;
            }
        }
        let hi: u64 = if width > 64 && n > 1 {
            self.blocks[1]
        } else {
            0
        };
        let x = (lo as u128) | ((hi as u128) << 64u128);
        proof {
            assert(x == join_halves(lo, hi));
            assert forall|i: int| width <= i < self@.len() implies !self@[i] by {
                assert(self@[i] == self.stored_bit(i));
                if i < need * 64 {
                    lemma_shift_clears_bit(lo, width as u64, i as u64);
                }
            }
            let v = value_of(self@, width as nat);
            assert forall|k: int| 0 <= k < 128 implies value_bit(x, k) == value_bit(v, k) by {
                lemma_value_of_bit(self@, width as nat, k);
                lemma_join_halves_bit(lo, hi, (k % 64) as u64);
                if k < self@.len() {
                    assert(self@[k] == self.stored_bit(k));
                } else if k < n * 64 {
                    assert(!self.stored_bit(k));
                }
                if k < 64 {
                    if width < 64 && k >= width {
                        lemma_shift_clears_bit(lo, width as u64, k as u64);
                    }
                } else if hi == 0 {
                    lemma_zero_block_bit((k % 64) as u64);
                }
            }
            lemma_value_ext(x, v);
        }
        Some(x)
    }

    /// The set holding `value`, one bit per bit of `T`: bit `i` of the set
    /// is bit `i` of the value.
    pub fn from_uint<T: FixedWidth>(value: T) -> (r: BitSet)
        ensures
            r.wf(),
            r@ == bits_of(value.spec_wide(), T::spec_width()),
            r.spec_block_count() == blocks_for(T::spec_width()),
    {
        let width = T::width();
        let wide = value.widen();
        Self::from_wide(wide, width)
    }

    /// The stored bits as a value of `T`; an error where a bit at or above
    /// the width of `T` is set.
    pub fn try_into_uint<T: FixedWidth>(self) -> (r: Result<T, ConversionError>)
        requires
            self.wf(),
        ensures
            r == match read_value(self@, T::spec_width()) {
                Some(x) => Ok(T::spec_narrow(x)),
                None => Err(ConversionError),
            },
    {
        let width = T::width();
        match self.read_wide(width) {
            Some(x) => {
                proof {
                    lemma_value_of_fits(self@, width as nat);
                }
                Ok(T::narrow(x))
            },
            None => Err(ConversionError),
        }
    }
}

} // verus!
