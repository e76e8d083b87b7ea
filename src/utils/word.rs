//! The correspondence between fixed-width unsigned words and runs of bits,
//! most significant bit first.
use crate::bit::{bit_of, Bit};
use vstd::arithmetic::power2::{lemma2_to64, lemma_pow2_adds, lemma_pow2_unfold, pow2};
use vstd::prelude::*;

verus! {

/// The lowest `n` bits of `v`, most significant first.
pub open spec fn word_bits(v: nat, n: nat) -> Seq<Bit>
    decreases n,
{
    if n == 0 {
        Seq::empty()
    } else {
        word_bits(v / 2, (n - 1) as nat).push(bit_of((v % 2) as int))
    }
}

/// The number that a run of bits spells, most significant first.
pub open spec fn bits_value(s: Seq<Bit>) -> nat
    decreases s.len(),
{
    if s.len() == 0 {
        0
    } else {
        2 * bits_value(s.drop_last()) + s.last().value()
    }
}

/// The `n` bits of `s` that start at `index`; positions past the end read as `Off`.
pub open spec fn window(s: Seq<Bit>, index: int, n: nat) -> Seq<Bit> {
    Seq::new(n, |i: int| if index + i < s.len() { s[index + i] } else { Bit::Off })
}

/// `s` with the bits of `w` written from `index` on; positions past the end of `s`
/// are not written.
pub open spec fn overwrite(s: Seq<Bit>, index: int, w: Seq<Bit>) -> Seq<Bit> {
    Seq::new(
        s.len(),
        |j: int| if index <= j < index + w.len() { w[j - index] } else { s[j] },
    )
}

pub proof fn lemma_word_bits_len(v: nat, n: nat)
    ensures
        #[trigger] word_bits(v, n).len() == n,
    decreases n,
{
    if n > 0 {
        lemma_word_bits_len(v / 2, (n - 1) as nat);
    }
}

pub proof fn lemma_bits_value_bound(s: Seq<Bit>)
    ensures
        bits_value(s) < pow2(s.len()),
    decreases s.len(),
{
    if s.len() > 0 {
        lemma_bits_value_bound(s.drop_last());
        lemma_pow2_unfold(s.len());
    } else {
        lemma2_to64();
    }
}

/// Reading back the bits of a word gives the word, when it fits the width.
pub proof fn lemma_value_of_word_bits(v: nat, n: nat)
    requires
        v < pow2(n),
    ensures
        bits_value(word_bits(v, n)) == v,
    decreases n,
{
    if n == 0 {
        lemma2_to64();
    } else {
        lemma_pow2_unfold(n);
        lemma_word_bits_len(v / 2, (n - 1) as nat);
        lemma_value_of_word_bits(v / 2, (n - 1) as nat);
        let w = word_bits(v, n);
        assert(w.drop_last() =~= word_bits(v / 2, (n - 1) as nat));
    }
}

/// Writing out the value of a run of bits gives the run back.
pub proof fn lemma_word_bits_of_value(s: Seq<Bit>)
    ensures
        word_bits(bits_value(s), s.len()) == s,
    decreases s.len(),
{
    if s.len() > 0 {
        let p = s.drop_last();
        lemma_word_bits_of_value(p);
        let v = bits_value(s);
        assert(v / 2 == bits_value(p));
        assert(s =~= p.push(s.last()));
    }
}

/// `pow2(128)` is one past the largest `u128`.
pub proof fn lemma_pow2_128()
    ensures
        pow2(128) == u128::MAX + 1,
        pow2(64) == u64::MAX + 1,
        pow2(32) == u32::MAX + 1,
        pow2(16) == u16::MAX + 1,
        pow2(8) == u8::MAX + 1,
{
    lemma2_to64();
    lemma_pow2_adds(64, 64);
}

/// Widths up to 128 have `pow2` within `u128` range.
pub proof fn lemma_pow2_mono(a: nat, b: nat)
    requires
        a <= b,
    ensures
        pow2(a) <= pow2(b),
    decreases b - a,
{
    if a < b {
        lemma_pow2_mono(a, (b - 1) as nat);
        lemma_pow2_unfold(b);
    }
}

} // verus!
