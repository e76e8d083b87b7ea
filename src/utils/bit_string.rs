//! A growable, bit-addressable buffer.
use crate::bit::{bit_of, Bit};
use crate::word::{
    bits_value, lemma_bits_value_bound, lemma_pow2_128, lemma_pow2_mono, lemma_word_bits_len,
    overwrite, window, word_bits,
};
use vstd::arithmetic::power2::{lemma_pow2_unfold, pow2};
use vstd::prelude::*;
use vstd::string::StringExecFns;

verus! {

/// `n` bits, all `Off`.
pub open spec fn zeros(n: nat) -> Seq<Bit> {
    Seq::new(n, |i: int| Bit::Off)
}

/// `n` bits, all `On`.
pub open spec fn ones(n: nat) -> Seq<Bit> {
    Seq::new(n, |i: int| Bit::On)
}

/// `s` with the bits in `[index, index + len)` flipped; positions past the end are
/// left out.
pub open spec fn flip_range(s: Seq<Bit>, index: int, len: int) -> Seq<Bit> {
    Seq::new(
        s.len(),
        |j: int| if index <= j < index + len { s[j].flipped() } else { s[j] },
    )
}

/// `s` with `o` xor-ed onto it from position `index` on.
pub open spec fn xor_at(s: Seq<Bit>, index: int, o: Seq<Bit>) -> Seq<Bit> {
    Seq::new(
        s.len(),
        |j: int| if index <= j < index + o.len() { s[j].xor_spec(o[j - index]) } else { s[j] },
    )
}

/// `s` read back to front.
pub open spec fn reversed(s: Seq<Bit>) -> Seq<Bit> {
    Seq::new(s.len(), |i: int| s[s.len() - 1 - i])
}

/// The number of `width`-bit words needed to hold `len` bits.
pub open spec fn word_count(len: nat, width: nat) -> nat
    recommends
        width > 0,
{
    ((len + width - 1) as nat / width) as nat
}

/// The `k`-th `width`-bit word of `s`, the last one padded with zeroes.
pub open spec fn word_at(s: Seq<Bit>, k: int, width: nat) -> nat {
    bits_value(window(s, k * width, width))
}

/// A bounded operation would reach past the end of the buffer.
#[derive(Debug, Clone, Copy, PartialEq, Eq, Structural)]
pub struct BoundsError {
    pub index: usize,
    pub width: usize,
    pub len: usize,
}

/// The buffer's length is not a multiple of the word width that was asked for.
#[derive(Debug, Clone, Copy, PartialEq, Eq, Structural)]
pub struct NotWordAligned {
    pub len: usize,
    pub width: usize,
}

/// An ordered sequence of bits; index 0 is the earliest appended, most significant
/// position.
#[derive(Debug, Clone)]
pub struct BitString {
    bit_vec: Vec<Bit>,
}

impl View for BitString {
    type V = Seq<Bit>;

    closed spec fn view(&self) -> Seq<Bit> {
        self.bit_vec@
    }
}

impl PartialEq for BitString {
    fn eq(&self, other: &BitString) -> (r: bool) {
        if self.bit_vec.len() != other.bit_vec.len() {
            return false;
        }
        let mut i: usize = 0;
        while i < self.bit_vec.len()
            invariant
                self.bit_vec.len() == other.bit_vec.len(),
                i <= self.bit_vec.len(),
                forall|j: int| 0 <= j < i ==> self.bit_vec@[j] == other.bit_vec@[j],
            decreases self.bit_vec.len() - i,
        {
            if self.bit_vec[i] != other.bit_vec[i] {
                return false;
            }
            i += 1;
        }
        assert(self.bit_vec@ =~= other.bit_vec@);
        true
    }
}

impl vstd::std_specs::cmp::PartialEqSpecImpl for BitString {
    open spec fn obeys_eq_spec() -> bool {
        true
    }

    open spec fn eq_spec(&self, other: &BitString) -> bool {
        self@ == other@
    }
}

impl Eq for BitString {

}

impl BitString {
    pub fn new() -> (r: BitString)
        ensures
            r@ == Seq::<Bit>::empty(),
    {
        BitString { bit_vec: Vec::new() }
    }

    pub fn with_capacity(capacity: usize) -> (r: BitString)
        ensures
            r@ == Seq::<Bit>::empty(),
    {
        BitString { bit_vec: Vec::with_capacity(capacity) }
    }

    pub fn with_zeroes(amount: usize) -> (r: BitString)
        ensures
            r@ == zeros(amount as nat),
    {
        let mut bit_string = BitString::with_capacity(amount);
        bit_string.append_zeroes(amount);
        assert(bit_string@ =~= zeros(amount as nat));
        bit_string
    }

    pub fn with_ones(amount: usize) -> (r: BitString)
        ensures
            r@ == ones(amount as nat),
    {
        let mut bit_string = BitString::with_capacity(amount);
        bit_string.append_ones(amount);
        assert(bit_string@ =~= ones(amount as nat));
        bit_string
    }

    pub fn is_empty(&self) -> (r: bool)
        ensures
            r == (self@.len() == 0),
    {
        self.bit_vec.len() == 0
    }

    pub fn len(&self) -> (r: usize)
        ensures
            r == self@.len(),
    {
        self.bit_vec.len()
    }

    pub fn append_bit(&mut self, bit: Bit)
        ensures
            final(self)@ == old(self)@.push(bit),
    {
        self.bit_vec.push(bit);
    }

    /// Appends `amount` copies of `bit`.
    fn append_repeated(&mut self, amount: usize, bit: Bit)
        ensures
            final(self)@ == old(self)@ + Seq::new(amount as nat, |i: int| bit),
    {
        let ghost start = self@;
        let mut i: usize = 0;
        while i < amount
            invariant
                i <= amount,
                self@ == start + Seq::new(i as nat, |j: int| bit),
            decreases amount - i,
        {
            self.bit_vec.push(bit);
            i += 1;
            assert(self@ =~= start + Seq::new(i as nat, |j: int| bit));
        }
    }

    pub fn append_zeroes(&mut self, amount: usize)
        ensures
            final(self)@ == old(self)@ + zeros(amount as nat),
    {
        self.append_repeated(amount, Bit::Off);
    }

    pub fn append_ones(&mut self, amount: usize)
        ensures
            final(self)@ == old(self)@ + ones(amount as nat),
    {
        self.append_repeated(amount, Bit::On);
    }

    /// Appends every bit of `bits`, in order.
    pub fn append_bits(&mut self, bits: &[Bit])
        ensures
            final(self)@ == old(self)@ + bits@,
    {
        let ghost start = self@;
        let mut i: usize = 0;
        while i < bits.len()
            invariant
                i <= bits@.len(),
                self@ == start + bits@.subrange(0, i as int),
            decreases bits@.len() - i,
        {
            self.bit_vec.push(bits[i]);
            i += 1;
            assert(self@ =~= start + bits@.subrange(0, i as int));
        }
        assert(bits@.subrange(0, bits@.len() as int) =~= bits@);
    }

    pub fn get_bit(&self, index: usize) -> (r: &Bit)
        requires
            index < self@.len(),
        ensures
            *r == self@[index as int],
    {
        &self.bit_vec[index]
    }

    pub fn checked_get_bit(&self, index: usize) -> (r: Option<&Bit>)
        ensures
            index < self@.len() ==> r == Some(&self@[index as int]),
            index >= self@.len() ==> r.is_none(),
    {
        if index < self.bit_vec.len() {
            Some(&self.bit_vec[index])
        } else {
            None
        }
    }

    pub fn get_last(&self) -> (r: Option<&Bit>)
        ensures
            self@.len() > 0 ==> r == Some(&self@.last()),
            self@.len() == 0 ==> r.is_none(),
    {
        if self.bit_vec.len() == 0 {
            None
        } else {
            Some(&self.bit_vec[self.bit_vec.len() - 1])
        }
    }

    pub fn as_vec(&self) -> (r: &Vec<Bit>)
        ensures
            r@ == self@,
    {
        &self.bit_vec
    }

    pub fn as_bit_slice(&self) -> (r: &[Bit])
        ensures
            r@ == self@,
    {
        self.bit_vec.as_slice()
    }

    pub fn set_bit(&mut self, index: usize, bit: Bit)
        requires
            index < old(self)@.len(),
        ensures
            final(self)@ == old(self)@.update(index as int, bit),
    {
        self.bit_vec.set(index, bit);
    }

    /// Writes `bits` over the positions from `index` on.
    pub fn set_bits(&mut self, index: usize, bits: &BitString)
        requires
            index + bits@.len() <= old(self)@.len(),
        ensures
            final(self)@ == overwrite(old(self)@, index as int, bits@),
    {
        let ghost start = self@;
        let mut i: usize = 0;
        while i < bits.bit_vec.len()
            invariant
                index + bits@.len() <= start.len(),
                i <= bits@.len(),
                self.bit_vec.len() == start.len(),
                self@ == overwrite(start, index as int, bits@.subrange(0, i as int)),
            decreases bits@.len() - i,
        {
            self.bit_vec.set(index + i, bits.bit_vec[i]);
            i += 1;
            assert(self@ =~= overwrite(start, index as int, bits@.subrange(0, i as int)));
        }
        assert(bits@.subrange(0, bits@.len() as int) =~= bits@);
    }

    /// Flips the bits in `[index, index + length)`, stopping at the end of the buffer.
    pub fn flip_bits(&mut self, index: usize, length: usize)
        requires
            index < old(self)@.len(),
        ensures
            final(self)@ == flip_range(old(self)@, index as int, length as int),
    {
        let ghost start = self@;
        let end: usize = if length < self.bit_vec.len() - index {
            index + length
        } else {
            self.bit_vec.len()
        };
        let mut i: usize = index;
        while i < end
            invariant
                index <= i <= end <= start.len(),
                end == start.len() || end == index + length,
                self@ == flip_range(start, index as int, i - index),
            decreases end - i,
        {
            let b = self.bit_vec[i].not_bit();
            self.bit_vec.set(i, b);
            i += 1;
            assert(self@ =~= flip_range(start, index as int, i - index));
        }
        assert(self@ =~= flip_range(start, index as int, length as int));
    }

    /// Flips the bits in `[index, index + length)`; refused when that range reaches
    /// past the end.
    pub fn flip_bits_exact(&mut self, index: usize, length: usize) -> (r: Result<(), BoundsError>)
        ensures
            r.is_ok() == (index + length <= old(self)@.len()),
            r.is_ok() ==> final(self)@ == flip_range(old(self)@, index as int, length as int),
            r.is_err() ==> final(self)@ == old(self)@ && r == Err::<(), BoundsError>(
                BoundsError { index, width: length, len: old(self)@.len() as usize },
            ),
    {
        if index > self.bit_vec.len() || length > self.bit_vec.len() - index {
            return Err(BoundsError { index, width: length, len: self.bit_vec.len() });
        }
        if length > 0 {
            self.flip_bits(index, length);
        } else {
            assert(self@ =~= flip_range(self@, index as int, 0));
        }
        Ok(())
    }

    pub fn flip_bit(&mut self, index: usize)
        requires
            index < old(self)@.len(),
        ensures
            final(self)@ == old(self)@.update(index as int, old(self)@[index as int].flipped()),
    {
        self.flip_bits(index, 1);
        assert(self@ =~= old(self)@.update(index as int, old(self)@[index as int].flipped()));
    }

    /// The `width` bits from `index` on as a number, most significant first;
    /// positions past the end read as `Off`.
    fn get_word(&self, index: usize, width: usize) -> (r: u128)
        requires
            width <= 128,
        ensures
            r == bits_value(window(self@, index as int, width as nat)),
            r < pow2(width as nat),
    {
        let ghost w = window(self@, index as int, width as nat);
        let mut output: u128 = 0;
        let mut i: usize = 0;
        while i < width
            invariant
                i <= width <= 128,
                w == window(self@, index as int, width as nat),
                output == bits_value(w.subrange(0, i as int)),
            decreases width - i,
        {
            proof {
                lemma_bits_value_bound(w.subrange(0, i as int));
                lemma_pow2_mono(i as nat, 127);
                lemma_pow2_128();
                lemma_pow2_unfold(128);
            }
            let on = index < self.bit_vec.len() && i < self.bit_vec.len() - index
                && self.bit_vec[index + i] == Bit::On;
            output = output * 2 + if on {
                1
            } else {
                0
            };
            i += 1;
            assert(w.subrange(0, i as int).drop_last() =~= w.subrange(0, i - 1));
        }
        assert(w.subrange(0, width as int) =~= w);
        proof {
            lemma_bits_value_bound(w);
        }
        output
    }

    /// The lowest `width` bits of `v`, most significant first.
    fn word_vec(v: u128, width: usize) -> (r: Vec<Bit>)
        ensures
            r@ == word_bits(v as nat, width as nat),
    {
        let mut w: Vec<Bit> = Vec::new();
        let mut k: usize = 0;
        while k < width
            invariant
                k <= width,
                w.len() == k,
            decreases width - k,
        {
            w.push(Bit::Off);
            k += 1;
        }
        let mut tmp: u128 = v;
        let mut i: usize = 0;
        let ghost mut suffix: Seq<Bit> = Seq::empty();
        while i < width
            invariant
                i <= width,
                w.len() == width,
                suffix.len() == i,
                w@.subrange(width - i, width as int) == suffix,
                word_bits(v as nat, width as nat) == word_bits(
                    tmp as nat,
                    (width - i) as nat,
                ) + suffix,
            decreases width - i,
        {
            let b = if tmp % 2 == 1 {
                Bit::On
            } else {
                Bit::Off
            };
            let ghost t = tmp as nat;
            let ghost n = (width - i) as nat;
            w.set(width - 1 - i, b);
            assert(word_bits(t, n) == word_bits(t / 2, (n - 1) as nat).push(b));
            assert(word_bits(t / 2, (n - 1) as nat).push(b) + suffix =~= word_bits(
                t / 2,
                (n - 1) as nat,
            ) + (seq![b] + suffix));
            proof {
                suffix = seq![b] + suffix;
            }
            tmp = tmp / 2;
            i += 1;
            assert(w@.subrange(width - i, width as int) =~= suffix);
        }
        assert(w@.subrange(0, width as int) =~= w@);
        w
    }

    /// Appends the lowest `width` bits of `data`, most significant first.
    fn append_word(&mut self, data: u128, width: usize)
        ensures
            final(self)@ == old(self)@ + word_bits(data as nat, width as nat),
    {
        let mut w = BitString::word_vec(data, width);
        self.bit_vec.append(&mut w);
    }

    /// Inserts the lowest `width` bits of `data` before position `index`.
    fn insert_word(&mut self, index: usize, data: u128, width: usize)
        requires
            index <= old(self)@.len(),
        ensures
            final(self)@ == old(self)@.subrange(0, index as int) + word_bits(
                data as nat,
                width as nat,
            ) + old(self)@.subrange(index as int, old(self)@.len() as int),
    {
        let mut tail = self.bit_vec.split_off(index);
        let mut w = BitString::word_vec(data, width);
        self.bit_vec.append(&mut w);
        self.bit_vec.append(&mut tail);
    }

    /// Writes the lowest `width` bits of `data` from `index` on; positions past the
    /// end are not written.
    fn set_word(&mut self, index: usize, data: u128, width: usize)
        ensures
            final(self)@ == overwrite(old(self)@, index as int, word_bits(data as nat, width as nat)),
    {
        let w = BitString::word_vec(data, width);
        proof {
            lemma_word_bits_len(data as nat, width as nat);
        }
        let ghost start = self@;
        let len = self.bit_vec.len();
        let mut i: usize = 0;
        while i < width
            invariant
                i <= width,
                w.len() == width,
                w@ == word_bits(data as nat, width as nat),
                len == start.len(),
                self.bit_vec.len() == len,
                self@ == overwrite(start, index as int, w@.subrange(0, i as int)),
            decreases width - i,
        {
            if index < len && i < len - index {
                self.bit_vec.set(index + i, w[i]);
            }
            i += 1;
            assert(self@ =~= overwrite(start, index as int, w@.subrange(0, i as int)));
        }
        assert(w@.subrange(0, width as int) =~= w@);
    }

    /// Every `width`-bit word of the buffer in order, the last one padded with zeroes.
    fn padded_words(&self, width: usize) -> (r: Vec<u128>)
        requires
            0 < width <= 128,
        ensures
            r.len() == word_count(self@.len(), width as nat),
            forall|k: int|
                0 <= k < r.len() ==> r[k] == word_at(self@, k, width as nat) && r[k] < pow2(
                    width as nat,
                ),
    {
        let len = self.bit_vec.len();
        if len % width != 0 {
            assert(len / width < len) by (nonlinear_arith)
                requires
                    len % width != 0,
                    width > 0,
            ;
        }
        let count = if len % width == 0 {
            len / width
        } else {
            len / width + 1
        };
        assert(count == word_count(len as nat, width as nat)) by (nonlinear_arith)
            requires
                width > 0,
                count == len / width + if len % width == 0 {
                    0int
                } else {
                    1
                },
        ;
        let mut out: Vec<u128> = Vec::new();
        let mut k: usize = 0;
        while k < count
            invariant
                0 < width <= 128,
                len == self@.len(),
                count == len / width + if len % width == 0 {
                    0int
                } else {
                    1
                },
                k <= count,
                out.len() == k,
                forall|j: int|
                    0 <= j < k ==> out[j] == word_at(self@, j, width as nat) && out[j] < pow2(
                        width as nat,
                    ),
            decreases count - k,
        {
            assert(k * width <= len) by (nonlinear_arith)
                requires
                    0 < width,
                    k < count,
                    count == len / width + if len % width == 0 {
                        0int
                    } else {
                        1
                    },
            ;
            let v = self.get_word(k * width, width);
            out.push(v);
            k += 1;
        }
        out
    }

    /// Appends the 8 bits of `data`, most significant first.
    pub fn append_u8(&mut self, data: u8)
        ensures
            final(self)@ == old(self)@ + word_bits(data as nat, 8),
    {
        self.append_word(data as u128, 8);
    }

    /// Inserts the 8 bits of `data` before position `index`.
    pub fn insert_u8(&mut self, index: usize, data: u8)
        requires
            index <= old(self)@.len(),
        ensures
            final(self)@ == old(self)@.subrange(0, index as int) + word_bits(data as nat, 8)
                + old(self)@.subrange(index as int, old(self)@.len() as int),
    {
        self.insert_word(index, data as u128, 8);
    }

    /// Puts the 8 bits of `data` in front of the buffer.
    pub fn prepend_u8(&mut self, data: u8)
        ensures
            final(self)@ == word_bits(data as nat, 8) + old(self)@,
    {
        self.insert_word(0, data as u128, 8);
        assert(old(self)@.subrange(0, 0) + word_bits(data as nat, 8) =~= word_bits(data as nat, 8));
        assert(old(self)@.subrange(0, old(self)@.len() as int) =~= old(self)@);
    }

    /// The 8 bits from `index` on as a number; positions past the end read as `Off`.
    pub fn get_u8(&self, index: usize) -> (r: u8)
        ensures
            r as nat == bits_value(window(self@, index as int, 8)),
    {
        let v = self.get_word(index, 8);
        proof {
            lemma_pow2_128();
        }
        v as u8
    }

    /// The 8 bits from `index` on as a number; refused when they reach past the end.
    pub fn get_exact_u8(&self, index: usize) -> (r: Result<u8, BoundsError>)
        ensures
            r.is_ok() == (index + 8 <= self@.len()),
            r.is_ok() ==> r.unwrap() as nat == bits_value(
                self@.subrange(index as int, index + 8),
            ),
            r.is_err() ==> r == Err::<u8, BoundsError>(
                BoundsError { index, width: 8, len: self@.len() as usize },
            ),
    {
        if index > self.bit_vec.len() || 8 > self.bit_vec.len() - index {
            return Err(BoundsError { index, width: 8, len: self.bit_vec.len() });
        }
        assert(window(self@, index as int, 8) =~= self@.subrange(index as int, index + 8));
        Ok(self.get_u8(index))
    }

    /// Writes the 8 bits of `data` from `index` on; positions past the end are not
    /// written.
    pub fn set_u8(&mut self, index: usize, data: u8)
        ensures
            final(self)@ == overwrite(old(self)@, index as int, word_bits(data as nat, 8)),
    {
        self.set_word(index, data as u128, 8);
    }

    /// Writes the 8 bits of `data` from `index` on; refused when they reach past the
    /// end.
    pub fn set_exact_u8(&mut self, index: usize, data: u8) -> (r: Result<(), BoundsError>)
        ensures
            r.is_ok() == (index + 8 <= old(self)@.len()),
            r.is_ok() ==> final(self)@ == overwrite(
                old(self)@,
                index as int,
                word_bits(data as nat, 8),
            ),
            r.is_err() ==> final(self)@ == old(self)@ && r == Err::<(), BoundsError>(
                BoundsError { index, width: 8, len: old(self)@.len() as usize },
            ),
    {
        if index > self.bit_vec.len() || 8 > self.bit_vec.len() - index {
            return Err(BoundsError { index, width: 8, len: self.bit_vec.len() });
        }
        self.set_u8(index, data);
        Ok(())
    }

    /// The buffer cut into 8-bit words, the last one padded with zeroes.
    pub fn as_vec_with_padding_u8(&self) -> (r: Vec<u8>)
        ensures
            r.len() == word_count(self@.len(), 8),
            forall|k: int| 0 <= k < r.len() ==> r[k] as nat == word_at(self@, k, 8),
    {
        let words = self.padded_words(8);
        let mut out: Vec<u8> = Vec::new();
        let mut k: usize = 0;
        proof {
            lemma_pow2_128();
        }
        while k < words.len()
            invariant
                k <= words.len(),
                out.len() == k,
                pow2(8) == u8::MAX + 1,
                forall|j: int|
                    0 <= j < words.len() ==> words[j] == word_at(self@, j, 8) && words[j]
                        < pow2(8),
                forall|j: int| 0 <= j < k ==> out[j] as nat == word_at(self@, j, 8),
            decreases words.len() - k,
        {
            out.push(words[k] as u8);
            k += 1;
        }
        out
    }

    /// The buffer cut into 8-bit words; its length must be a multiple of 8.
    pub fn as_vec_exact_u8(&self) -> (r: Vec<u8>)
        requires
            self@.len() % 8 == 0,
        ensures
            r.len() == self@.len() / 8,
            forall|k: int| 0 <= k < r.len() ==> r[k] as nat == word_at(self@, k, 8),
    {
        self.as_vec_with_padding_u8()
    }

    /// The buffer cut into 8-bit words; refused when its length is not a multiple
    /// of 8.
    pub fn try_as_vec_exact_u8(&self) -> (r: Result<Vec<u8>, NotWordAligned>)
        ensures
            r.is_ok() == (self@.len() % 8 == 0),
            r.is_ok() ==> r.unwrap().len() == self@.len() / 8 && forall|k: int|
                0 <= k < r.unwrap().len() ==> r.unwrap()[k] as nat == word_at(self@, k, 8),
            r.is_err() ==> r == Err::<Vec<u8>, NotWordAligned>(
                NotWordAligned { len: self@.len() as usize, width: 8 },
            ),
    {
        if self.bit_vec.len() % 8 != 0 {
            return Err(NotWordAligned { len: self.bit_vec.len(), width: 8 });
        }
        Ok(self.as_vec_exact_u8())
    }

    /// The 8 bits of `data`, most significant first.
    pub fn from_u8(data: u8) -> (r: BitString)
        ensures
            r@ == word_bits(data as nat, 8),
    {
        let mut bs = BitString::with_capacity(8);
        bs.append_u8(data);
        assert(bs@ =~= word_bits(data as nat, 8));
        bs
    }

    /// The bits of every word of `words` in turn, each most significant first.
    pub fn from_u8_slice(words: &[u8]) -> (r: BitString)
        ensures
            r@.len() == 8 * words@.len(),
            forall|k: int, i: int|
                0 <= k < words@.len() && 0 <= i < 8 ==> #[trigger] r@[k * 8 + i]
                    == #[trigger] word_bits(words@[k] as nat, 8)[i],
    {
        let mut bs = BitString::new();
        let mut k: usize = 0;
        while k < words.len()
            invariant
                k <= words@.len(),
                bs@.len() == 8 * k,
                forall|j: int, i: int|
                    0 <= j < k && 0 <= i < 8 ==> #[trigger] bs@[j * 8 + i]
                        == #[trigger] word_bits(words@[j] as nat, 8)[i],
            decreases words@.len() - k,
        {
            let ghost before = bs@;
            proof {
                lemma_word_bits_len(words@[k as int] as nat, 8);
            }
            bs.append_u8(words[k]);
            assert forall|j: int, i: int|
                0 <= j < k + 1 && 0 <= i < 8 implies #[trigger] bs@[j * 8 + i]
                    == #[trigger] word_bits(words@[j] as nat, 8)[i] by {
                if j < k {
                    assert(j * 8 + i < 8 * k) by (nonlinear_arith)
                        requires
                            j < k,
                            0 <= i < 8,
                    ;
                    assert(bs@[j * 8 + i] == before[j * 8 + i]);
                } else {
                    assert(j * 8 + i == 8 * k + i) by (nonlinear_arith)
                        requires
                            j == k,
                    ;
                }
            }
            k += 1;
        }
        bs
    }

    /// Appends the 16 bits of `data`, most significant first.
    pub fn append_u16(&mut self, data: u16)
        ensures
            final(self)@ == old(self)@ + word_bits(data as nat, 16),
    {
        self.append_word(data as u128, 16);
    }

    /// Inserts the 16 bits of `data` before position `index`.
    pub fn insert_u16(&mut self, index: usize, data: u16)
        requires
            index <= old(self)@.len(),
        ensures
            final(self)@ == old(self)@.subrange(0, index as int) + word_bits(data as nat, 16)
                + old(self)@.subrange(index as int, old(self)@.len() as int),
    {
        self.insert_word(index, data as u128, 16);
    }

    /// Puts the 16 bits of `data` in front of the buffer.
    pub fn prepend_u16(&mut self, data: u16)
        ensures
            final(self)@ == word_bits(data as nat, 16) + old(self)@,
    {
        self.insert_word(0, data as u128, 16);
        assert(old(self)@.subrange(0, 0) + word_bits(data as nat, 16) =~= word_bits(data as nat, 16));
        assert(old(self)@.subrange(0, old(self)@.len() as int) =~= old(self)@);
    }

    /// The 16 bits from `index` on as a number; positions past the end read as `Off`.
    pub fn get_u16(&self, index: usize) -> (r: u16)
        ensures
            r as nat == bits_value(window(self@, index as int, 16)),
    {
        let v = self.get_word(index, 16);
        proof {
            lemma_pow2_128();
        }
        v as u16
    }

    /// The 16 bits from `index` on as a number; refused when they reach past the end.
    pub fn get_exact_u16(&self, index: usize) -> (r: Result<u16, BoundsError>)
        ensures
            r.is_ok() == (index + 16 <= self@.len()),
            r.is_ok() ==> r.unwrap() as nat == bits_value(
                self@.subrange(index as int, index + 16),
            ),
            r.is_err() ==> r == Err::<u16, BoundsError>(
                BoundsError { index, width: 16, len: self@.len() as usize },
            ),
    {
        if index > self.bit_vec.len() || 16 > self.bit_vec.len() - index {
            return Err(BoundsError { index, width: 16, len: self.bit_vec.len() });
        }
        assert(window(self@, index as int, 16) =~= self@.subrange(index as int, index + 16));
        Ok(self.get_u16(index))
    }

    /// Writes the 16 bits of `data` from `index` on; positions past the end are not
    /// written.
    pub fn set_u16(&mut self, index: usize, data: u16)
        ensures
            final(self)@ == overwrite(old(self)@, index as int, word_bits(data as nat, 16)),
    {
        self.set_word(index, data as u128, 16);
    }

    /// Writes the 16 bits of `data` from `index` on; refused when they reach past the
    /// end.
    pub fn set_exact_u16(&mut self, index: usize, data: u16) -> (r: Result<(), BoundsError>)
        ensures
            r.is_ok() == (index + 16 <= old(self)@.len()),
            r.is_ok() ==> final(self)@ == overwrite(
                old(self)@,
                index as int,
                word_bits(data as nat, 16),
            ),
            r.is_err() ==> final(self)@ == old(self)@ && r == Err::<(), BoundsError>(
                BoundsError { index, width: 16, len: old(self)@.len() as usize },
            ),
    {
        if index > self.bit_vec.len() || 16 > self.bit_vec.len() - index {
            return Err(BoundsError { index, width: 16, len: self.bit_vec.len() });
        }
        self.set_u16(index, data);
        Ok(())
    }

    /// The buffer cut into 16-bit words, the last one padded with zeroes.
    pub fn as_vec_with_padding_u16(&self) -> (r: Vec<u16>)
        ensures
            r.len() == word_count(self@.len(), 16),
            forall|k: int| 0 <= k < r.len() ==> r[k] as nat == word_at(self@, k, 16),
    {
        let words = self.padded_words(16);
        let mut out: Vec<u16> = Vec::new();
        let mut k: usize = 0;
        proof {
            lemma_pow2_128();
        }
        while k < words.len()
            invariant
                k <= words.len(),
                out.len() == k,
                pow2(16) == u16::MAX + 1,
                forall|j: int|
                    0 <= j < words.len() ==> words[j] == word_at(self@, j, 16) && words[j]
                        < pow2(16),
                forall|j: int| 0 <= j < k ==> out[j] as nat == word_at(self@, j, 16),
            decreases words.len() - k,
        {
            out.push(words[k] as u16);
            k += 1;
        }
        out
    }

    /// The buffer cut into 16-bit words; its length must be a multiple of 16.
    pub fn as_vec_exact_u16(&self) -> (r: Vec<u16>)
        requires
            self@.len() % 16 == 0,
        ensures
            r.len() == self@.len() / 16,
            forall|k: int| 0 <= k < r.len() ==> r[k] as nat == word_at(self@, k, 16),
    {
        self.as_vec_with_padding_u16()
    }

    /// The buffer cut into 16-bit words; refused when its length is not a multiple
    /// of 16.
    pub fn try_as_vec_exact_u16(&self) -> (r: Result<Vec<u16>, NotWordAligned>)
        ensures
            r.is_ok() == (self@.len() % 16 == 0),
            r.is_ok() ==> r.unwrap().len() == self@.len() / 16 && forall|k: int|
                0 <= k < r.unwrap().len() ==> r.unwrap()[k] as nat == word_at(self@, k, 16),
            r.is_err() ==> r == Err::<Vec<u16>, NotWordAligned>(
                NotWordAligned { len: self@.len() as usize, width: 16 },
            ),
    {
        if self.bit_vec.len() % 16 != 0 {
            return Err(NotWordAligned { len: self.bit_vec.len(), width: 16 });
        }
        Ok(self.as_vec_exact_u16())
    }

    /// The 16 bits of `data`, most significant first.
    pub fn from_u16(data: u16) -> (r: BitString)
        ensures
            r@ == word_bits(data as nat, 16),
    {
        let mut bs = BitString::with_capacity(16);
        bs.append_u16(data);
        assert(bs@ =~= word_bits(data as nat, 16));
        bs
    }

    /// The bits of every word of `words` in turn, each most significant first.
    pub fn from_u16_slice(words: &[u16]) -> (r: BitString)
        ensures
            r@.len() == 16 * words@.len(),
            forall|k: int, i: int|
                0 <= k < words@.len() && 0 <= i < 16 ==> #[trigger] r@[k * 16 + i]
                    == #[trigger] word_bits(words@[k] as nat, 16)[i],
    {
        let mut bs = BitString::new();
        let mut k: usize = 0;
        while k < words.len()
            invariant
                k <= words@.len(),
                bs@.len() == 16 * k,
                forall|j: int, i: int|
                    0 <= j < k && 0 <= i < 16 ==> #[trigger] bs@[j * 16 + i]
                        == #[trigger] word_bits(words@[j] as nat, 16)[i],
            decreases words@.len() - k,
        {
            let ghost before = bs@;
            proof {
                lemma_word_bits_len(words@[k as int] as nat, 16);
            }
            bs.append_u16(words[k]);
            assert forall|j: int, i: int|
                0 <= j < k + 1 && 0 <= i < 16 implies #[trigger] bs@[j * 16 + i]
                    == #[trigger] word_bits(words@[j] as nat, 16)[i] by {
                if j < k {
                    assert(j * 16 + i < 16 * k) by (nonlinear_arith)
                        requires
                            j < k,
                            0 <= i < 16,
                    ;
                    assert(bs@[j * 16 + i] == before[j * 16 + i]);
                } else {
                    assert(j * 16 + i == 16 * k + i) by (nonlinear_arith)
                        requires
                            j == k,
                    ;
                }
            }
            k += 1;
        }
        bs
    }

    /// Appends the 32 bits of `data`, most significant first.
    pub fn append_u32(&mut self, data: u32)
        ensures
            final(self)@ == old(self)@ + word_bits(data as nat, 32),
    {
        self.append_word(data as u128, 32);
    }

    /// Inserts the 32 bits of `data` before position `index`.
    pub fn insert_u32(&mut self, index: usize, data: u32)
        requires
            index <= old(self)@.len(),
        ensures
            final(self)@ == old(self)@.subrange(0, index as int) + word_bits(data as nat, 32)
                + old(self)@.subrange(index as int, old(self)@.len() as int),
    {
        self.insert_word(index, data as u128, 32);
    }

    /// Puts the 32 bits of `data` in front of the buffer.
    pub fn prepend_u32(&mut self, data: u32)
        ensures
            final(self)@ == word_bits(data as nat, 32) + old(self)@,
    {
        self.insert_word(0, data as u128, 32);
        assert(old(self)@.subrange(0, 0) + word_bits(data as nat, 32) =~= word_bits(data as nat, 32));
        assert(old(self)@.subrange(0, old(self)@.len() as int) =~= old(self)@);
    }

    /// The 32 bits from `index` on as a number; positions past the end read as `Off`.
    pub fn get_u32(&self, index: usize) -> (r: u32)
        ensures
            r as nat == bits_value(window(self@, index as int, 32)),
    {
        let v = self.get_word(index, 32);
        proof {
            lemma_pow2_128();
        }
        v as u32
    }

    /// The 32 bits from `index` on as a number; refused when they reach past the end.
    pub fn get_exact_u32(&self, index: usize) -> (r: Result<u32, BoundsError>)
        ensures
            r.is_ok() == (index + 32 <= self@.len()),
            r.is_ok() ==> r.unwrap() as nat == bits_value(
                self@.subrange(index as int, index + 32),
            ),
            r.is_err() ==> r == Err::<u32, BoundsError>(
                BoundsError { index, width: 32, len: self@.len() as usize },
            ),
    {
        if index > self.bit_vec.len() || 32 > self.bit_vec.len() - index {
            return Err(BoundsError { index, width: 32, len: self.bit_vec.len() });
        }
        assert(window(self@, index as int, 32) =~= self@.subrange(index as int, index + 32));
        Ok(self.get_u32(index))
    }

    /// Writes the 32 bits of `data` from `index` on; positions past the end are not
    /// written.
    pub fn set_u32(&mut self, index: usize, data: u32)
        ensures
            final(self)@ == overwrite(old(self)@, index as int, word_bits(data as nat, 32)),
    {
        self.set_word(index, data as u128, 32);
    }

    /// Writes the 32 bits of `data` from `index` on; refused when they reach past the
    /// end.
    pub fn set_exact_u32(&mut self, index: usize, data: u32) -> (r: Result<(), BoundsError>)
        ensures
            r.is_ok() == (index + 32 <= old(self)@.len()),
            r.is_ok() ==> final(self)@ == overwrite(
                old(self)@,
                index as int,
                word_bits(data as nat, 32),
            ),
            r.is_err() ==> final(self)@ == old(self)@ && r == Err::<(), BoundsError>(
                BoundsError { index, width: 32, len: old(self)@.len() as usize },
            ),
    {
        if index > self.bit_vec.len() || 32 > self.bit_vec.len() - index {
            return Err(BoundsError { index, width: 32, len: self.bit_vec.len() });
        }
        self.set_u32(index, data);
        Ok(())
    }

    /// The buffer cut into 32-bit words, the last one padded with zeroes.
    pub fn as_vec_with_padding_u32(&self) -> (r: Vec<u32>)
        ensures
            r.len() == word_count(self@.len(), 32),
            forall|k: int| 0 <= k < r.len() ==> r[k] as nat == word_at(self@, k, 32),
    {
        let words = self.padded_words(32);
        let mut out: Vec<u32> = Vec::new();
        let mut k: usize = 0;
        proof {
            lemma_pow2_128();
        }
        while k < words.len()
            invariant
                k <= words.len(),
                out.len() == k,
                pow2(32) == u32::MAX + 1,
                forall|j: int|
                    0 <= j < words.len() ==> words[j] == word_at(self@, j, 32) && words[j]
                        < pow2(32),
                forall|j: int| 0 <= j < k ==> out[j] as nat == word_at(self@, j, 32),
            decreases words.len() - k,
        {
            out.push(words[k] as u32);
            k += 1;
        }
        out
    }

    /// The buffer cut into 32-bit words; its length must be a multiple of 32.
    pub fn as_vec_exact_u32(&self) -> (r: Vec<u32>)
        requires
            self@.len() % 32 == 0,
        ensures
            r.len() == self@.len() / 32,
            forall|k: int| 0 <= k < r.len() ==> r[k] as nat == word_at(self@, k, 32),
    {
        self.as_vec_with_padding_u32()
    }

    /// The buffer cut into 32-bit words; refused when its length is not a multiple
    /// of 32.
    pub fn try_as_vec_exact_u32(&self) -> (r: Result<Vec<u32>, NotWordAligned>)
        ensures
            r.is_ok() == (self@.len() % 32 == 0),
            r.is_ok() ==> r.unwrap().len() == self@.len() / 32 && forall|k: int|
                0 <= k < r.unwrap().len() ==> r.unwrap()[k] as nat == word_at(self@, k, 32),
            r.is_err() ==> r == Err::<Vec<u32>, NotWordAligned>(
                NotWordAligned { len: self@.len() as usize, width: 32 },
            ),
    {
        if self.bit_vec.len() % 32 != 0 {
            return Err(NotWordAligned { len: self.bit_vec.len(), width: 32 });
        }
        Ok(self.as_vec_exact_u32())
    }

    /// The 32 bits of `data`, most significant first.
    pub fn from_u32(data: u32) -> (r: BitString)
        ensures
            r@ == word_bits(data as nat, 32),
    {
        let mut bs = BitString::with_capacity(32);
        bs.append_u32(data);
        assert(bs@ =~= word_bits(data as nat, 32));
        bs
    }

    /// The bits of every word of `words` in turn, each most significant first.
    pub fn from_u32_slice(words: &[u32]) -> (r: BitString)
        ensures
            r@.len() == 32 * words@.len(),
            forall|k: int, i: int|
                0 <= k < words@.len() && 0 <= i < 32 ==> #[trigger] r@[k * 32 + i]
                    == #[trigger] word_bits(words@[k] as nat, 32)[i],
    {
        let mut bs = BitString::new();
        let mut k: usize = 0;
        while k < words.len()
            invariant
                k <= words@.len(),
                bs@.len() == 32 * k,
                forall|j: int, i: int|
                    0 <= j < k && 0 <= i < 32 ==> #[trigger] bs@[j * 32 + i]
                        == #[trigger] word_bits(words@[j] as nat, 32)[i],
            decreases words@.len() - k,
        {
            let ghost before = bs@;
            proof {
                lemma_word_bits_len(words@[k as int] as nat, 32);
            }
            bs.append_u32(words[k]);
            assert forall|j: int, i: int|
                0 <= j < k + 1 && 0 <= i < 32 implies #[trigger] bs@[j * 32 + i]
                    == #[trigger] word_bits(words@[j] as nat, 32)[i] by {
                if j < k {
                    assert(j * 32 + i < 32 * k) by (nonlinear_arith)
                        requires
                            j < k,
                            0 <= i < 32,
                    ;
                    assert(bs@[j * 32 + i] == before[j * 32 + i]);
                } else {
                    assert(j * 32 + i == 32 * k + i) by (nonlinear_arith)
                        requires
                            j == k,
                    ;
                }
            }
            k += 1;
        }
        bs
    }

    /// Appends the 64 bits of `data`, most significant first.
    pub fn append_u64(&mut self, data: u64)
        ensures
            final(self)@ == old(self)@ + word_bits(data as nat, 64),
    {
        self.append_word(data as u128, 64);
    }

    /// Inserts the 64 bits of `data` before position `index`.
    pub fn insert_u64(&mut self, index: usize, data: u64)
        requires
            index <= old(self)@.len(),
        ensures
            final(self)@ == old(self)@.subrange(0, index as int) + word_bits(data as nat, 64)
                + old(self)@.subrange(index as int, old(self)@.len() as int),
    {
        self.insert_word(index, data as u128, 64);
    }

    /// Puts the 64 bits of `data` in front of the buffer.
    pub fn prepend_u64(&mut self, data: u64)
        ensures
            final(self)@ == word_bits(data as nat, 64) + old(self)@,
    {
        self.insert_word(0, data as u128, 64);
        assert(old(self)@.subrange(0, 0) + word_bits(data as nat, 64) =~= word_bits(data as nat, 64));
        assert(old(self)@.subrange(0, old(self)@.len() as int) =~= old(self)@);
    }

    /// The 64 bits from `index` on as a number; positions past the end read as `Off`.
    pub fn get_u64(&self, index: usize) -> (r: u64)
        ensures
            r as nat == bits_value(window(self@, index as int, 64)),
    {
        let v = self.get_word(index, 64);
        proof {
            lemma_pow2_128();
        }
        v as u64
    }

    /// The 64 bits from `index` on as a number; refused when they reach past the end.
    pub fn get_exact_u64(&self, index: usize) -> (r: Result<u64, BoundsError>)
        ensures
            r.is_ok() == (index + 64 <= self@.len()),
            r.is_ok() ==> r.unwrap() as nat == bits_value(
                self@.subrange(index as int, index + 64),
            ),
            r.is_err() ==> r == Err::<u64, BoundsError>(
                BoundsError { index, width: 64, len: self@.len() as usize },
            ),
    {
        if index > self.bit_vec.len() || 64 > self.bit_vec.len() - index {
            return Err(BoundsError { index, width: 64, len: self.bit_vec.len() });
        }
        assert(window(self@, index as int, 64) =~= self@.subrange(index as int, index + 64));
        Ok(self.get_u64(index))
    }

    /// Writes the 64 bits of `data` from `index` on; positions past the end are not
    /// written.
    pub fn set_u64(&mut self, index: usize, data: u64)
        ensures
            final(self)@ == overwrite(old(self)@, index as int, word_bits(data as nat, 64)),
    {
        self.set_word(index, data as u128, 64);
    }

    /// Writes the 64 bits of `data` from `index` on; refused when they reach past the
    /// end.
    pub fn set_exact_u64(&mut self, index: usize, data: u64) -> (r: Result<(), BoundsError>)
        ensures
            r.is_ok() == (index + 64 <= old(self)@.len()),
            r.is_ok() ==> final(self)@ == overwrite(
                old(self)@,
                index as int,
                word_bits(data as nat, 64),
            ),
            r.is_err() ==> final(self)@ == old(self)@ && r == Err::<(), BoundsError>(
                BoundsError { index, width: 64, len: old(self)@.len() as usize },
            ),
    {
        if index > self.bit_vec.len() || 64 > self.bit_vec.len() - index {
            return Err(BoundsError { index, width: 64, len: self.bit_vec.len() });
        }
        self.set_u64(index, data);
        Ok(())
    }

    /// The buffer cut into 64-bit words, the last one padded with zeroes.
    pub fn as_vec_with_padding_u64(&self) -> (r: Vec<u64>)
        ensures
            r.len() == word_count(self@.len(), 64),
            forall|k: int| 0 <= k < r.len() ==> r[k] as nat == word_at(self@, k, 64),
    {
        let words = self.padded_words(64);
        let mut out: Vec<u64> = Vec::new();
        let mut k: usize = 0;
        proof {
            lemma_pow2_128();
        }
        while k < words.len()
            invariant
                k <= words.len(),
                out.len() == k,
                pow2(64) == u64::MAX + 1,
                forall|j: int|
                    0 <= j < words.len() ==> words[j] == word_at(self@, j, 64) && words[j]
                        < pow2(64),
                forall|j: int| 0 <= j < k ==> out[j] as nat == word_at(self@, j, 64),
            decreases words.len() - k,
        {
            out.push(words[k] as u64);
            k += 1;
        }
        out
    }

    /// The buffer cut into 64-bit words; its length must be a multiple of 64.
    pub fn as_vec_exact_u64(&self) -> (r: Vec<u64>)
        requires
            self@.len() % 64 == 0,
        ensures
            r.len() == self@.len() / 64,
            forall|k: int| 0 <= k < r.len() ==> r[k] as nat == word_at(self@, k, 64),
    {
        self.as_vec_with_padding_u64()
    }

    /// The buffer cut into 64-bit words; refused when its length is not a multiple
    /// of 64.
    pub fn try_as_vec_exact_u64(&self) -> (r: Result<Vec<u64>, NotWordAligned>)
        ensures
            r.is_ok() == (self@.len() % 64 == 0),
            r.is_ok() ==> r.unwrap().len() == self@.len() / 64 && forall|k: int|
                0 <= k < r.unwrap().len() ==> r.unwrap()[k] as nat == word_at(self@, k, 64),
            r.is_err() ==> r == Err::<Vec<u64>, NotWordAligned>(
                NotWordAligned { len: self@.len() as usize, width: 64 },
            ),
    {
        if self.bit_vec.len() % 64 != 0 {
            return Err(NotWordAligned { len: self.bit_vec.len(), width: 64 });
        }
        Ok(self.as_vec_exact_u64())
    }

    /// The 64 bits of `data`, most significant first.
    pub fn from_u64(data: u64) -> (r: BitString)
        ensures
            r@ == word_bits(data as nat, 64),
    {
        let mut bs = BitString::with_capacity(64);
        bs.append_u64(data);
        assert(bs@ =~= word_bits(data as nat, 64));
        bs
    }

    /// The bits of every word of `words` in turn, each most significant first.
    pub fn from_u64_slice(words: &[u64]) -> (r: BitString)
        ensures
            r@.len() == 64 * words@.len(),
            forall|k: int, i: int|
                0 <= k < words@.len() && 0 <= i < 64 ==> #[trigger] r@[k * 64 + i]
                    == #[trigger] word_bits(words@[k] as nat, 64)[i],
    {
        let mut bs = BitString::new();
        let mut k: usize = 0;
        while k < words.len()
            invariant
                k <= words@.len(),
                bs@.len() == 64 * k,
                forall|j: int, i: int|
                    0 <= j < k && 0 <= i < 64 ==> #[trigger] bs@[j * 64 + i]
                        == #[trigger] word_bits(words@[j] as nat, 64)[i],
            decreases words@.len() - k,
        {
            let ghost before = bs@;
            proof {
                lemma_word_bits_len(words@[k as int] as nat, 64);
            }
            bs.append_u64(words[k]);
            assert forall|j: int, i: int|
                0 <= j < k + 1 && 0 <= i < 64 implies #[trigger] bs@[j * 64 + i]
                    == #[trigger] word_bits(words@[j] as nat, 64)[i] by {
                if j < k {
                    assert(j * 64 + i < 64 * k) by (nonlinear_arith)
                        requires
                            j < k,
                            0 <= i < 64,
                    ;
                    assert(bs@[j * 64 + i] == before[j * 64 + i]);
                } else {
                    assert(j * 64 + i == 64 * k + i) by (nonlinear_arith)
                        requires
                            j == k,
                    ;
                }
            }
            k += 1;
        }
        bs
    }

    /// Appends the 128 bits of `data`, most significant first.
    pub fn append_u128(&mut self, data: u128)
        ensures
            final(self)@ == old(self)@ + word_bits(data as nat, 128),
    {
        self.append_word(data as u128, 128);
    }

    /// Inserts the 128 bits of `data` before position `index`.
    pub fn insert_u128(&mut self, index: usize, data: u128)
        requires
            index <= old(self)@.len(),
        ensures
            final(self)@ == old(self)@.subrange(0, index as int) + word_bits(data as nat, 128)
                + old(self)@.subrange(index as int, old(self)@.len() as int),
    {
        self.insert_word(index, data as u128, 128);
    }

    /// Puts the 128 bits of `data` in front of the buffer.
    pub fn prepend_u128(&mut self, data: u128)
        ensures
            final(self)@ == word_bits(data as nat, 128) + old(self)@,
    {
        self.insert_word(0, data as u128, 128);
        assert(old(self)@.subrange(0, 0) + word_bits(data as nat, 128) =~= word_bits(data as nat, 128));
        assert(old(self)@.subrange(0, old(self)@.len() as int) =~= old(self)@);
    }

    /// The 128 bits from `index` on as a number; positions past the end read as `Off`.
    pub fn get_u128(&self, index: usize) -> (r: u128)
        ensures
            r as nat == bits_value(window(self@, index as int, 128)),
    {
        let v = self.get_word(index, 128);
        proof {
            lemma_pow2_128();
        }
        v as u128
    }

    /// The 128 bits from `index` on as a number; refused when they reach past the end.
    pub fn get_exact_u128(&self, index: usize) -> (r: Result<u128, BoundsError>)
        ensures
            r.is_ok() == (index + 128 <= self@.len()),
            r.is_ok() ==> r.unwrap() as nat == bits_value(
                self@.subrange(index as int, index + 128),
            ),
            r.is_err() ==> r == Err::<u128, BoundsError>(
                BoundsError { index, width: 128, len: self@.len() as usize },
            ),
    {
        if index > self.bit_vec.len() || 128 > self.bit_vec.len() - index {
            return Err(BoundsError { index, width: 128, len: self.bit_vec.len() });
        }
        assert(window(self@, index as int, 128) =~= self@.subrange(index as int, index + 128));
        Ok(self.get_u128(index))
    }

    /// Writes the 128 bits of `data` from `index` on; positions past the end are not
    /// written.
    pub fn set_u128(&mut self, index: usize, data: u128)
        ensures
            final(self)@ == overwrite(old(self)@, index as int, word_bits(data as nat, 128)),
    {
        self.set_word(index, data as u128, 128);
    }

    /// Writes the 128 bits of `data` from `index` on; refused when they reach past the
    /// end.
    pub fn set_exact_u128(&mut self, index: usize, data: u128) -> (r: Result<(), BoundsError>)
        ensures
            r.is_ok() == (index + 128 <= old(self)@.len()),
            r.is_ok() ==> final(self)@ == overwrite(
                old(self)@,
                index as int,
                word_bits(data as nat, 128),
            ),
            r.is_err() ==> final(self)@ == old(self)@ && r == Err::<(), BoundsError>(
                BoundsError { index, width: 128, len: old(self)@.len() as usize },
            ),
    {
        if index > self.bit_vec.len() || 128 > self.bit_vec.len() - index {
            return Err(BoundsError { index, width: 128, len: self.bit_vec.len() });
        }
        self.set_u128(index, data);
        Ok(())
    }

    /// The buffer cut into 128-bit words, the last one padded with zeroes.
    pub fn as_vec_with_padding_u128(&self) -> (r: Vec<u128>)
        ensures
            r.len() == word_count(self@.len(), 128),
            forall|k: int| 0 <= k < r.len() ==> r[k] as nat == word_at(self@, k, 128),
    {
        let words = self.padded_words(128);
        let mut out: Vec<u128> = Vec::new();
        let mut k: usize = 0;
        proof {
            lemma_pow2_128();
        }
        while k < words.len()
            invariant
                k <= words.len(),
                out.len() == k,
                pow2(128) == u128::MAX + 1,
                forall|j: int|
                    0 <= j < words.len() ==> words[j] == word_at(self@, j, 128) && words[j]
                        < pow2(128),
                forall|j: int| 0 <= j < k ==> out[j] as nat == word_at(self@, j, 128),
            decreases words.len() - k,
        {
            out.push(words[k] as u128);
            k += 1;
        }
        out
    }

    /// The buffer cut into 128-bit words; its length must be a multiple of 128.
    pub fn as_vec_exact_u128(&self) -> (r: Vec<u128>)
        requires
            self@.len() % 128 == 0,
        ensures
            r.len() == self@.len() / 128,
            forall|k: int| 0 <= k < r.len() ==> r[k] as nat == word_at(self@, k, 128),
    {
        self.as_vec_with_padding_u128()
    }

    /// The buffer cut into 128-bit words; refused when its length is not a multiple
    /// of 128.
    pub fn try_as_vec_exact_u128(&self) -> (r: Result<Vec<u128>, NotWordAligned>)
        ensures
            r.is_ok() == (self@.len() % 128 == 0),
            r.is_ok() ==> r.unwrap().len() == self@.len() / 128 && forall|k: int|
                0 <= k < r.unwrap().len() ==> r.unwrap()[k] as nat == word_at(self@, k, 128),
            r.is_err() ==> r == Err::<Vec<u128>, NotWordAligned>(
                NotWordAligned { len: self@.len() as usize, width: 128 },
            ),
    {
        if self.bit_vec.len() % 128 != 0 {
            return Err(NotWordAligned { len: self.bit_vec.len(), width: 128 });
        }
        Ok(self.as_vec_exact_u128())
    }

    /// The 128 bits of `data`, most significant first.
    pub fn from_u128(data: u128) -> (r: BitString)
        ensures
            r@ == word_bits(data as nat, 128),
    {
        let mut bs = BitString::with_capacity(128);
        bs.append_u128(data);
        assert(bs@ =~= word_bits(data as nat, 128));
        bs
    }

    /// The bits of every word of `words` in turn, each most significant first.
    pub fn from_u128_slice(words: &[u128]) -> (r: BitString)
        ensures
            r@.len() == 128 * words@.len(),
            forall|k: int, i: int|
                0 <= k < words@.len() && 0 <= i < 128 ==> #[trigger] r@[k * 128 + i]
                    == #[trigger] word_bits(words@[k] as nat, 128)[i],
    {
        let mut bs = BitString::new();
        let mut k: usize = 0;
        while k < words.len()
            invariant
                k <= words@.len(),
                bs@.len() == 128 * k,
                forall|j: int, i: int|
                    0 <= j < k && 0 <= i < 128 ==> #[trigger] bs@[j * 128 + i]
                        == #[trigger] word_bits(words@[j] as nat, 128)[i],
            decreases words@.len() - k,
        {
            let ghost before = bs@;
            proof {
                lemma_word_bits_len(words@[k as int] as nat, 128);
            }
            bs.append_u128(words[k]);
            assert forall|j: int, i: int|
                0 <= j < k + 1 && 0 <= i < 128 implies #[trigger] bs@[j * 128 + i]
                    == #[trigger] word_bits(words@[j] as nat, 128)[i] by {
                if j < k {
                    assert(j * 128 + i < 128 * k) by (nonlinear_arith)
                        requires
                            j < k,
                            0 <= i < 128,
                    ;
                    assert(bs@[j * 128 + i] == before[j * 128 + i]);
                } else {
                    assert(j * 128 + i == 128 * k + i) by (nonlinear_arith)
                        requires
                            j == k,
                    ;
                }
            }
            k += 1;
        }
        bs
    }

    /// Takes out the `len` bits from `index` on and hands them back.
    pub fn remove_len(&mut self, index: usize, len: usize) -> (r: BitString)
        requires
            index + len <= old(self)@.len(),
        ensures
            r@ == old(self)@.subrange(index as int, index + len),
            final(self)@ == old(self)@.subrange(0, index as int) + old(self)@.subrange(
                index + len,
                old(self)@.len() as int,
            ),
    {
        let mut removed = self.bit_vec.split_off(index);
        let mut tail = removed.split_off(len);
        self.bit_vec.append(&mut tail);
        BitString { bit_vec: removed }
    }

    /// Takes out the bit at `index` and hands it back.
    pub fn remove_bit(&mut self, index: usize) -> (r: Bit)
        requires
            index < old(self)@.len(),
        ensures
            r == old(self)@[index as int],
            final(self)@ == old(self)@.remove(index as int),
    {
        self.bit_vec.remove(index)
    }

    /// Takes out the last `len` bits and hands them back.
    pub fn remove_last_len(&mut self, len: usize) -> (r: BitString)
        requires
            len <= old(self)@.len(),
        ensures
            r@ == old(self)@.subrange(old(self)@.len() - len, old(self)@.len() as int),
            final(self)@ == old(self)@.subrange(0, old(self)@.len() - len),
    {
        let index = self.bit_vec.len() - len;
        let r = self.remove_len(index, len);
        assert(self@ =~= old(self)@.subrange(0, old(self)@.len() - len));
        r
    }

    /// Takes out the last bit, if there is one.
    pub fn remove_last(&mut self) -> (r: Option<Bit>)
        ensures
            old(self)@.len() == 0 ==> r.is_none() && final(self)@ == old(self)@,
            old(self)@.len() > 0 ==> r == Some(old(self)@.last()) && final(self)@ == old(
                self,
            )@.drop_last(),
    {
        self.bit_vec.pop()
    }

    /// A copy of the bits from `index` on, at most `len` of them.
    pub fn copy_len(&self, index: usize, len: usize) -> (r: BitString)
        ensures
            index >= self@.len() ==> r@ == Seq::<Bit>::empty(),
            index < self@.len() && len <= self@.len() - index ==> r@ == self@.subrange(
                index as int,
                index + len,
            ),
            index < self@.len() && len > self@.len() - index ==> r@ == self@.subrange(
                index as int,
                self@.len() as int,
            ),
    {
        let mut out: Vec<Bit> = Vec::new();
        if index >= self.bit_vec.len() {
            return BitString { bit_vec: out };
        }
        let end = if len <= self.bit_vec.len() - index {
            index + len
        } else {
            self.bit_vec.len()
        };
        let mut i: usize = index;
        while i < end
            invariant
                index <= i <= end <= self@.len(),
                out@ == self@.subrange(index as int, i as int),
            decreases end - i,
        {
            out.push(self.bit_vec[i]);
            i += 1;
            assert(out@ =~= self@.subrange(index as int, i as int));
        }
        BitString { bit_vec: out }
    }

    /// A copy of the whole buffer.
    pub fn duplicate(&self) -> (r: BitString)
        ensures
            r@ == self@,
    {
        let r = self.copy_len(0, self.bit_vec.len());
        assert(self@.subrange(0, self@.len() as int) =~= self@);
        r
    }

    /// Inserts `bit` before position `index`.
    pub fn insert_bit(&mut self, index: usize, bit: Bit)
        requires
            index <= old(self)@.len(),
        ensures
            final(self)@ == old(self)@.insert(index as int, bit),
    {
        self.bit_vec.insert(index, bit);
    }

    /// Puts `bit` in front of the buffer.
    pub fn prepend_bit(&mut self, bit: Bit)
        ensures
            final(self)@ == seq![bit] + old(self)@,
    {
        self.bit_vec.insert(0, bit);
        assert(self@ =~= seq![bit] + old(self)@);
    }

    /// A copy of the buffer with `other` xor-ed onto it from `index` on.
    pub fn xor_on_index(&self, other: &BitString, index: usize) -> (r: BitString)
        requires
            index + other@.len() <= self@.len(),
        ensures
            r@ == xor_at(self@, index as int, other@),
    {
        let mut copy = self.duplicate();
        copy.xor_assign_on_index(other, index);
        copy
    }

    /// Xors `other` onto the buffer from `index` on.
    pub fn xor_assign_on_index(&mut self, other: &BitString, index: usize)
        requires
            index + other@.len() <= old(self)@.len(),
        ensures
            final(self)@ == xor_at(old(self)@, index as int, other@),
    {
        let ghost start = self@;
        let mut i: usize = 0;
        while i < other.bit_vec.len()
            invariant
                index + other@.len() <= start.len(),
                i <= other@.len(),
                self.bit_vec.len() == start.len(),
                self@ == xor_at(start, index as int, other@.subrange(0, i as int)),
            decreases other@.len() - i,
        {
            let b = self.bit_vec[index + i].xor_bit(other.bit_vec[i]);
            self.bit_vec.set(index + i, b);
            i += 1;
            assert(self@ =~= xor_at(start, index as int, other@.subrange(0, i as int)));
        }
        assert(other@.subrange(0, other@.len() as int) =~= other@);
    }

    /// Reverses the order of the bits, in place.
    pub fn reverse(&mut self)
        ensures
            final(self)@ == reversed(old(self)@),
    {
        let ghost start = self@;
        let n = self.bit_vec.len();
        let mut i: usize = 0;
        while i < n / 2
            invariant
                n == start.len(),
                self.bit_vec.len() == n,
                i <= n / 2,
                forall|j: int|
                    0 <= j < n ==> #[trigger] self@[j] == if j < i || j >= n - i {
                        start[n - 1 - j]
                    } else {
                        start[j]
                    },
            decreases n / 2 - i,
        {
            let ghost prev = self@;
            let a = self.bit_vec[i];
            let b = self.bit_vec[n - 1 - i];
            self.bit_vec.set(i, b);
            self.bit_vec.set(n - 1 - i, a);
            assert forall|j: int| 0 <= j < n implies #[trigger] self@[j] == if j < i + 1 || j
                >= n - (i + 1) {
                start[n - 1 - j]
            } else {
                start[j]
            } by {
                if j != i && j != n - 1 - i {
                    assert(self@[j] == prev[j]);
                }
            }
            i += 1;
        }
        assert(self@ =~= reversed(start));
    }

    /// The bits as a string of `0` and `1` characters.
    pub fn stringify(&self) -> (r: String)
        ensures
            r@.len() == self@.len(),
            forall|i: int|
                0 <= i < self@.len() ==> r@[i] == if self@[i] == Bit::On {
                    '1'
                } else {
                    '0'
                },
    {
        let mut string = String::new();
        let mut i: usize = 0;
        while i < self.bit_vec.len()
            invariant
                i <= self@.len(),
                string@.len() == i,
                forall|j: int|
                    0 <= j < i ==> string@[j] == if self@[j] == Bit::On {
                        '1'
                    } else {
                        '0'
                    },
            decreases self@.len() - i,
        {
            let digit = self.bit_vec[i].stringify();
            proof {
                reveal_strlit("0");
                reveal_strlit("1");
            }
            string.append(digit);
            i += 1;
        }
        string
    }

    /// A copy of a run of bits.
    pub fn from_bits(bits: &[Bit]) -> (r: BitString)
        ensures
            r@ == bits@,
    {
        let mut bs = BitString::new();
        bs.append_bits(bits);
        bs
    }

    /// The buffer that holds exactly these bits.
    pub fn from_bit_vec(bits: Vec<Bit>) -> (r: BitString)
        ensures
            r@ == bits@,
    {
        BitString { bit_vec: bits }
    }

    /// The bits, handed over as a vector.
    pub fn into_vec(self) -> (r: Vec<Bit>)
        ensures
            r@ == self@,
    {
        self.bit_vec
    }

    /// Shifts the bits towards the end by `amount`, filling with `Off`; a shift by
    /// the whole length or more leaves `amount` zeroes.
    pub fn shift_right(&mut self, amount: usize)
        ensures
            amount >= old(self)@.len() ==> final(self)@ == zeros(amount as nat),
            amount < old(self)@.len() ==> final(self)@ == zeros(amount as nat) + old(
                self,
            )@.subrange(0, old(self)@.len() - amount),
    {
        if amount >= self.bit_vec.len() {
            *self = BitString::with_zeroes(amount);
            return;
        }
        let mut shifted = BitString::with_zeroes(amount);
        let keep = self.bit_vec.len() - amount;
        self.bit_vec.truncate(keep);
        shifted.bit_vec.append(&mut self.bit_vec);
        *self = shifted;
    }

    /// Shifts the bits towards the front by `amount`, filling with `Off`; a shift by
    /// the whole length or more leaves `amount` zeroes.
    pub fn shift_left(&mut self, amount: usize)
        ensures
            amount >= old(self)@.len() ==> final(self)@ == zeros(amount as nat),
            amount < old(self)@.len() ==> final(self)@ == old(self)@.subrange(
                amount as int,
                old(self)@.len() as int,
            ) + zeros(amount as nat),
    {
        if amount >= self.bit_vec.len() {
            *self = BitString::with_zeroes(amount);
            return;
        }
        let mut rest = self.bit_vec.split_off(amount);
        self.bit_vec = Vec::new();
        self.bit_vec.append(&mut rest);
        self.append_zeroes(amount);
    }

    pub fn get_bit_mut(&mut self, index: usize) -> (r: &mut Bit)
        requires
            index < old(self)@.len(),
        ensures
            *r == old(self)@[index as int],
            final(self)@ == old(self)@.update(index as int, *final(r)),
    {
        &mut self.bit_vec[index]
    }

    pub fn get_last_mut(&mut self) -> (r: Option<&mut Bit>)
        ensures
            old(self)@.len() == 0 ==> r.is_none() && final(self)@ == old(self)@,
            old(self)@.len() > 0 ==> r.is_some() && *r.unwrap() == old(self)@.last()
                && final(self)@ == old(self)@.update(
                old(self)@.len() - 1,
                *final(r.unwrap()),
            ),
    {
        let n = self.bit_vec.len();
        if n == 0 {
            None
        } else {
            Some(&mut self.bit_vec[n - 1])
        }
    }

    pub fn as_bit_slice_mut(&mut self) -> (r: &mut [Bit])
        ensures
            r@ == old(self)@,
            final(self)@ == final(r)@,
    {
        self.bit_vec.as_mut_slice()
    }

    pub fn as_vec_mut(&mut self) -> (r: &mut Vec<Bit>)
        ensures
            r@ == old(self)@,
            final(self)@ == final(r)@,
    {
        &mut self.bit_vec
    }
}

impl core::ops::ShrAssign<usize> for BitString {
    fn shr_assign(&mut self, amount: usize) {
        self.shift_right(amount);
    }
}

impl core::ops::ShlAssign<usize> for BitString {
    fn shl_assign(&mut self, amount: usize) {
        self.shift_left(amount);
    }
}

impl Default for BitString {
    fn default() -> (r: BitString)
        ensures
            r@ == Seq::<Bit>::empty(),
    {
        BitString::new()
    }
}

impl core::ops::Index<usize> for BitString {
    type Output = Bit;

    fn index(&self, index: usize) -> (r: &Bit) {
        &self.bit_vec[index]
    }
}

impl vstd::std_specs::core::IndexSpecImpl<usize> for BitString {
    open spec fn index_req(&self, index: &usize) -> bool {
        *index < self@.len()
    }
}

} // verus!
