//! The ones'-complement checksum over the 16-bit words of a buffer.
use crate::bit::Bit;
use crate::bit_string::word_at;
use vstd::arithmetic::div_mod::lemma_mod_multiples_vanish;
use vstd::prelude::*;

verus! {

/// Folds the carries above bit 15 back into the low 16 bits until the value fits.
pub open spec fn fold_carries(s: nat) -> nat
    decreases s,
{
    if s > 0xFFFF {
        fold_carries(s / 0x10000 + s % 0x10000)
    } else {
        s
    }
}

/// The plain sum of the first `k` 16-bit words of `bits`.
pub open spec fn words_sum(bits: Seq<Bit>, k: nat) -> nat
    decreases k,
{
    if k == 0 {
        0
    } else {
        words_sum(bits, (k - 1) as nat) + word_at(bits, k - 1, 16)
    }
}

/// The ones' complement of the folded sum of every 16-bit word of `bits`.
pub open spec fn checksum_of(bits: Seq<Bit>) -> u16 {
    (0xFFFF - fold_carries(words_sum(bits, bits.len() / 16))) as u16
}

/// Folding keeps the value modulo `0xFFFF`, and only zero folds to zero.
pub proof fn lemma_fold_carries_mod(s: nat)
    ensures
        fold_carries(s) == if s == 0 {
            0
        } else {
            (s - 1) % 0xFFFF + 1
        },
    decreases s,
{
    if s > 0xFFFF {
        let q = s / 0x10000;
        let t = s / 0x10000 + s % 0x10000;
        assert(t < s && t > 0);
        lemma_fold_carries_mod(t);
        assert(s - 1 == 0xFFFF * q + (t - 1));
        lemma_mod_multiples_vanish(q as int, t - 1, 0xFFFF);
    }
}

/// Folding part of a sum early does not change the folded total.
pub proof fn lemma_fold_carries_absorb(a: nat, w: nat)
    ensures
        fold_carries(fold_carries(a) + w) == fold_carries(a + w),
{
    lemma_fold_carries_mod(a);
    lemma_fold_carries_mod(a + w);
    if a > 0 {
        let f = fold_carries(a);
        lemma_fold_carries_mod(f + w);
        let q = (a - 1) / 0xFFFF;
        assert(a - 1 == 0xFFFF * q + (f - 1));
        assert(a + w - 1 == 0xFFFF * q + (f + w - 1));
        lemma_mod_multiples_vanish(q as int, f + w - 1, 0xFFFF);
    }
}

/// The checksum of a run of 16-bit words that are the words of `bits`.
pub(crate) fn checksum_words(words: &Vec<u16>, bits: Ghost<Seq<Bit>>) -> (r: u16)
    requires
        words.len() == bits@.len() / 16,
        forall|k: int| 0 <= k < words.len() ==> words[k] as nat == word_at(bits@, k, 16),
    ensures
        r == checksum_of(bits@),
{
    let mut acc: u32 = 0;
    let mut k: usize = 0;
    while k < words.len()
        invariant
            k <= words.len(),
            words.len() == bits@.len() / 16,
            forall|j: int| 0 <= j < words.len() ==> words[j] as nat == word_at(bits@, j, 16),
            acc <= 0xFFFF,
            acc == fold_carries(words_sum(bits@, k as nat)),
        decreases words.len() - k,
    {
        let w = words[k];
        proof {
            lemma_fold_carries_absorb(words_sum(bits@, k as nat), w as nat);
        }
        let ghost s = acc as nat + w as nat;
        assert(words_sum(bits@, (k + 1) as nat) == words_sum(bits@, k as nat) + w as nat);
        acc = acc + w as u32;
        if acc > 0xFFFF {
            acc = acc / 0x10000 + acc % 0x10000;
            assert(fold_carries(s) == fold_carries(s / 0x10000 + s % 0x10000));
            assert(fold_carries(acc as nat) == acc);
        }
        k += 1;
    }
    0xFFFF - acc as u16
}

} // verus!
