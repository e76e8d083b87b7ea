//! Seeded, deterministic models of channel noise.
use crate::bit::Bit;
use crate::bit_string::{flip_range, BitString};
use crate::rand::{reset_seed, xorshift_next, xorshift_nth, XorShift};
use vstd::prelude::*;

verus! {

/// The number of positions at which two runs of bits of equal length differ.
pub open spec fn hamming(a: Seq<Bit>, b: Seq<Bit>) -> nat
    decreases a.len(),
{
    if a.len() == 0 {
        0
    } else {
        hamming(a.drop_last(), b.drop_last()) + if a.last() != b.last() {
            1nat
        } else {
            0
        }
    }
}

/// `d` with the bit at `i` flipped.
pub open spec fn flip_at(d: Seq<Bit>, i: int) -> Seq<Bit> {
    d.update(i, d[i].flipped())
}

/// The bit position that a generator in state `s` picks in a buffer of `n` bits.
pub open spec fn pick(s: u128, n: nat) -> int {
    (xorshift_next(s) as int) % (n as int)
}

/// A single bit flip drawn from a generator in state `s`.
pub open spec fn one_flip(s: u128, d: Seq<Bit>) -> Seq<Bit> {
    flip_at(d, pick(s, d.len()))
}

/// Each bit flipped when its draw, taken modulo 100, is below `chance`.
pub open spec fn flip_pass(s: u128, chance: u8, d: Seq<Bit>) -> Seq<Bit> {
    Seq::new(
        d.len(),
        |i: int|
            if (xorshift_nth(s, (i + 1) as nat) % 100) < chance {
                d[i].flipped()
            } else {
                d[i]
            },
    )
}

/// The result of an even multi-bit flip from state `s`.
pub open spec fn even_flip(s: u128, chance: u8, d: Seq<Bit>) -> Seq<Bit> {
    if chance == 0 {
        d
    } else if hamming(d, flip_pass(s, chance, d)) % 2 == 1 {
        one_flip(xorshift_nth(s, d.len()), flip_pass(s, chance, d))
    } else {
        flip_pass(s, chance, d)
    }
}

/// The generator state after an even multi-bit flip from state `s`.
pub open spec fn even_flip_state(s: u128, chance: u8, d: Seq<Bit>) -> u128 {
    if chance == 0 {
        s
    } else if hamming(d, flip_pass(s, chance, d)) % 2 == 1 {
        xorshift_nth(s, d.len() + 1)
    } else {
        xorshift_nth(s, d.len())
    }
}

/// The result of an odd multi-bit flip from state `s`.
pub open spec fn odd_flip(s: u128, chance: u8, d: Seq<Bit>) -> Seq<Bit> {
    one_flip(even_flip_state(s, chance, d), even_flip(s, chance, d))
}

/// The generator state after an odd multi-bit flip from state `s`.
pub open spec fn odd_flip_state(s: u128, chance: u8, d: Seq<Bit>) -> u128 {
    xorshift_next(even_flip_state(s, chance, d))
}

/// The shortest burst for a buffer of `n` bits.
pub open spec fn burst_min(n: nat) -> nat {
    if n / 2 < 4 {
        n / 2
    } else {
        4
    }
}

/// The longest burst for a buffer of `n` bits.
pub open spec fn burst_max(n: nat) -> nat {
    if n / 2 < 16 {
        n / 2
    } else {
        16
    }
}

/// The length of the burst drawn from state `s`.
pub open spec fn burst_len(s: u128, n: nat) -> nat {
    if burst_min(n) == burst_max(n) {
        burst_min(n)
    } else {
        burst_min(n) + (xorshift_next(s) as nat) % ((burst_max(n) - burst_min(n)) as nat)
    }
}

/// The generator state once the burst length has been drawn.
pub open spec fn burst_len_state(s: u128, n: nat) -> u128 {
    if burst_min(n) == burst_max(n) {
        s
    } else {
        xorshift_next(s)
    }
}

/// Where the burst drawn from state `s` starts.
pub open spec fn burst_start(s: u128, n: nat) -> int {
    (xorshift_next(burst_len_state(s, n)) as int) % ((n - burst_len(s, n)) as int)
}

/// The result of a burst flip from state `s`.
pub open spec fn burst(s: u128, d: Seq<Bit>) -> Seq<Bit> {
    flip_range(d, burst_start(s, d.len()), burst_len(s, d.len()) as int)
}

/// A strategy for corrupting data; each one that draws carries its own generator.
#[derive(Clone, PartialEq, Eq, Debug, Structural)]
pub enum Corruption {
    Clean,
    Random(XorShift),
    RandomCorruption(XorShift),
    OneBitFlip(XorShift),
    MultiBitFlipOdd(XorShift, u8),
    MultiBitFlipEven(XorShift, u8),
    BurstFlip(XorShift),
}

/// What the strategy numbered `idx` (among Clean, OneBitFlip, MultiBitFlipOdd,
/// MultiBitFlipEven, BurstFlip) does to `d`, drawing from state `s`.
pub open spec fn pick_outcome(idx: int, s: u128, chance: u8, d: Seq<Bit>) -> Seq<Bit> {
    if idx == 0 {
        d
    } else if idx == 1 {
        one_flip(s, d)
    } else if idx == 2 {
        odd_flip(s, chance, d)
    } else if idx == 3 {
        even_flip(s, chance, d)
    } else {
        burst(s, d)
    }
}

/// The state of the generator that a random pick derives from state `s`, once it
/// has drawn the chance and the strategy.
pub open spec fn random_sub_state(s: u128) -> u128 {
    xorshift_nth(reset_seed(s), 2)
}

/// The chance that a random pick derives from state `s`.
pub open spec fn random_chance(s: u128) -> u8 {
    (xorshift_nth(reset_seed(s), 1) % 101) as u8
}

/// The strategy draw that a random pick derives from state `s`.
pub open spec fn random_draw(s: u128) -> u128 {
    xorshift_nth(reset_seed(s), 2)
}

impl Corruption {
    /// The chance is a percentage wherever there is one.
    pub open spec fn valid(&self) -> bool {
        match self {
            Corruption::MultiBitFlipOdd(_, chance) => *chance <= 100,
            Corruption::MultiBitFlipEven(_, chance) => *chance <= 100,
            _ => true,
        }
    }

    /// The state of the strategy's generator (zero for `Clean`).
    pub open spec fn rng(&self) -> u128 {
        match self {
            Corruption::Clean => 0,
            Corruption::Random(r) => r@,
            Corruption::RandomCorruption(r) => r@,
            Corruption::OneBitFlip(r) => r@,
            Corruption::MultiBitFlipOdd(r, _) => r@,
            Corruption::MultiBitFlipEven(r, _) => r@,
            Corruption::BurstFlip(r) => r@,
        }
    }

    /// The two are the same strategy with the same chance.
    pub open spec fn same_kind(&self, other: &Corruption) -> bool {
        match (self, other) {
            (Corruption::Clean, Corruption::Clean) => true,
            (Corruption::Random(_), Corruption::Random(_)) => true,
            (Corruption::RandomCorruption(_), Corruption::RandomCorruption(_)) => true,
            (Corruption::OneBitFlip(_), Corruption::OneBitFlip(_)) => true,
            (Corruption::MultiBitFlipOdd(_, a), Corruption::MultiBitFlipOdd(_, b)) => a == b,
            (Corruption::MultiBitFlipEven(_, a), Corruption::MultiBitFlipEven(_, b)) => a == b,
            (Corruption::BurstFlip(_), Corruption::BurstFlip(_)) => true,
            _ => false,
        }
    }

    /// What the strategy does to `d`.
    pub open spec fn outcome(&self, d: Seq<Bit>) -> Seq<Bit> {
        let s = self.rng();
        match self {
            Corruption::Clean => d,
            Corruption::Random(_) => pick_outcome(
                (random_draw(s) % 5) as int,
                random_sub_state(s),
                random_chance(s),
                d,
            ),
            Corruption::RandomCorruption(_) => pick_outcome(
                (random_draw(s) % 4) as int + 1,
                random_sub_state(s),
                random_chance(s),
                d,
            ),
            Corruption::OneBitFlip(_) => one_flip(s, d),
            Corruption::MultiBitFlipOdd(_, chance) => odd_flip(s, *chance, d),
            Corruption::MultiBitFlipEven(_, chance) => even_flip(s, *chance, d),
            Corruption::BurstFlip(_) => burst(s, d),
        }
    }

    /// The state of the strategy's generator after it corrupted `d`.
    pub open spec fn next_rng(&self, d: Seq<Bit>) -> u128 {
        let s = self.rng();
        match self {
            Corruption::Clean => 0,
            Corruption::Random(_) => xorshift_next(s),
            Corruption::RandomCorruption(_) => xorshift_next(s),
            Corruption::OneBitFlip(_) => xorshift_next(s),
            Corruption::MultiBitFlipOdd(_, chance) => odd_flip_state(s, *chance, d),
            Corruption::MultiBitFlipEven(_, chance) => even_flip_state(s, *chance, d),
            Corruption::BurstFlip(_) => xorshift_next(burst_len_state(s, d.len())),
        }
    }
}

/// Flipping one bit changes the parity of the distance.
pub proof fn lemma_hamming_flip(d: Seq<Bit>, p: Seq<Bit>, j: int)
    requires
        d.len() == p.len(),
        0 <= j < p.len(),
    ensures
        (hamming(d, flip_at(p, j)) + hamming(d, p)) % 2 == 1,
    decreases d.len(),
{
    let q = flip_at(p, j);
    if j < d.len() - 1 {
        assert(q.drop_last() =~= flip_at(p.drop_last(), j));
        lemma_hamming_flip(d.drop_last(), p.drop_last(), j);
    } else {
        assert(q.drop_last() =~= p.drop_last());
    }
}

/// The even flip changes an even number of bits.
pub proof fn lemma_even_flip_parity(s: u128, chance: u8, d: Seq<Bit>)
    requires
        d.len() > 0,
    ensures
        even_flip(s, chance, d).len() == d.len(),
        hamming(d, even_flip(s, chance, d)) % 2 == 0,
{
    let p = flip_pass(s, chance, d);
    if chance == 0 {
        lemma_hamming_self(d);
    } else if hamming(d, p) % 2 == 1 {
        lemma_hamming_flip(d, p, pick(xorshift_nth(s, d.len()), d.len()));
    }
}

proof fn lemma_hamming_self(d: Seq<Bit>)
    ensures
        hamming(d, d) == 0,
    decreases d.len(),
{
    if d.len() > 0 {
        lemma_hamming_self(d.drop_last());
    }
}

/// The odd flip changes an odd number of bits.
pub proof fn lemma_odd_flip_parity(s: u128, chance: u8, d: Seq<Bit>)
    requires
        d.len() > 0,
    ensures
        odd_flip(s, chance, d).len() == d.len(),
        hamming(d, odd_flip(s, chance, d)) % 2 == 1,
{
    lemma_even_flip_parity(s, chance, d);
    let e = even_flip(s, chance, d);
    lemma_hamming_flip(d, e, pick(even_flip_state(s, chance, d), d.len()));
}

/// A single flip changes exactly one bit.
pub proof fn lemma_one_flip_distance(s: u128, d: Seq<Bit>)
    requires
        d.len() > 0,
    ensures
        one_flip(s, d).len() == d.len(),
        hamming(d, one_flip(s, d)) == 1,
    decreases d.len(),
{
    let j = pick(s, d.len());
    lemma_hamming_flip(d, d, j);
    lemma_hamming_self(d);
    lemma_hamming_one(d, j);
}

proof fn lemma_hamming_one(d: Seq<Bit>, j: int)
    requires
        0 <= j < d.len(),
    ensures
        hamming(d, flip_at(d, j)) == 1,
    decreases d.len(),
{
    let q = flip_at(d, j);
    if j < d.len() - 1 {
        assert(q.drop_last() =~= flip_at(d.drop_last(), j));
        lemma_hamming_one(d.drop_last(), j);
    } else {
        assert(q.drop_last() =~= d.drop_last());
        lemma_hamming_self(d.drop_last());
    }
}

impl Corruption {
    /// Corrupts `data` once, using up the strategy.
    pub fn corrupt(self, data: BitString) -> (r: BitString)
        requires
            self.valid(),
            data@.len() > 0,
        ensures
            r@ == self.outcome(data@),
    {
        let mut strategy = self;
        strategy.corrupt_borrow(data)
    }

    /// Corrupts `data` and advances the strategy's generator.
    pub fn corrupt_borrow(&mut self, data: BitString) -> (r: BitString)
        requires
            old(self).valid(),
            data@.len() > 0,
        ensures
            r@ == old(self).outcome(data@),
            r@.len() == data@.len(),
            final(self).same_kind(old(self)),
            final(self).rng() == old(self).next_rng(data@),
    {
        proof {
            lemma_outcome_len(*self, data@);
        }
        match self {
            Corruption::Clean => Corruption::no_corruption(data),
            Corruption::OneBitFlip(rand) => Corruption::one_bit_flip(rand, data),
            Corruption::MultiBitFlipEven(rand, chance) => Corruption::multi_bit_flip_even(
                rand,
                *chance,
                data,
            ),
            Corruption::MultiBitFlipOdd(rand, chance) => Corruption::multi_bit_flip_odd(
                rand,
                *chance,
                data,
            ),
            Corruption::BurstFlip(rand) => Corruption::burst_flip(rand, data),
            Corruption::Random(rand) => Corruption::random(rand, data),
            Corruption::RandomCorruption(rand) => Corruption::random_corruption(rand, data),
        }
    }

    /// Hands `data` back unchanged.
    pub fn no_corruption(data: BitString) -> (r: BitString)
        ensures
            r@ == data@,
    {
        data
    }

    /// Flips one bit at a position drawn from `rand`.
    pub fn one_bit_flip(rand: &mut XorShift, data: BitString) -> (r: BitString)
        requires
            data@.len() > 0,
        ensures
            final(rand)@ == xorshift_next(old(rand)@),
            r@ == one_flip(old(rand)@, data@),
            hamming(data@, r@) == 1,
    {
        proof {
            lemma_one_flip_distance(rand@, data@);
        }
        let mut flipped = data;
        let n = flipped.len();
        let idx = (rand.next_int() % n as u128) as usize;
        flipped.flip_bit(idx);
        flipped
    }

    /// Flips each bit when its draw falls below `chance` percent, then one more bit
    /// if that made the number of flips odd. A chance of zero changes nothing.
    pub fn multi_bit_flip_even(rand: &mut XorShift, chance: u8, data: BitString) -> (r: BitString)
        requires
            chance <= 100,
            data@.len() > 0,
        ensures
            r@ == even_flip(old(rand)@, chance, data@),
            final(rand)@ == even_flip_state(old(rand)@, chance, data@),
            r@.len() == data@.len(),
            hamming(data@, r@) % 2 == 0,
    {
        proof {
            lemma_even_flip_parity(rand@, chance, data@);
        }
        if chance == 0 {
            return data;
        }
        let ghost s0 = rand@;
        let ghost d = data@;
        let n = data.len();
        let mut out = data;
        let mut flips: usize = 0;
        let mut i: usize = 0;
        assert(xorshift_nth(s0, 0) == s0);
        while i < n
            invariant
                n == d.len(),
                i <= n,
                flips <= i,
                out@.len() == n,
                rand@ == xorshift_nth(s0, i as nat),
                forall|j: int| 0 <= j < i ==> out@[j] == flip_pass(s0, chance, d)[j],
                forall|j: int| i <= j < n ==> out@[j] == d[j],
                flips == hamming(d.subrange(0, i as int), out@.subrange(0, i as int)),
            decreases n - i,
        {
            let ghost before = out@;
            let event = rand.next_int() % 100;
            if event < chance as u128 {
                out.flip_bit(i);
                flips += 1;
            }
            i += 1;
            assert(d.subrange(0, i as int).drop_last() =~= d.subrange(0, i - 1));
            assert(out@.subrange(0, i as int).drop_last() =~= before.subrange(0, i - 1));
        }
        assert(out@ =~= flip_pass(s0, chance, d));
        assert(d.subrange(0, n as int) =~= d);
        assert(out@.subrange(0, n as int) =~= out@);
        if flips % 2 == 1 {
            Corruption::one_bit_flip(rand, out)
        } else {
            out
        }
    }

    /// An even multi-bit flip followed by one more flip: an odd number of bits change.
    pub fn multi_bit_flip_odd(rand: &mut XorShift, chance: u8, data: BitString) -> (r: BitString)
        requires
            chance <= 100,
            data@.len() > 0,
        ensures
            r@ == odd_flip(old(rand)@, chance, data@),
            final(rand)@ == odd_flip_state(old(rand)@, chance, data@),
            r@.len() == data@.len(),
            hamming(data@, r@) % 2 == 1,
    {
        proof {
            lemma_odd_flip_parity(rand@, chance, data@);
        }
        let even = Corruption::multi_bit_flip_even(rand, chance, data);
        Corruption::one_bit_flip(rand, even)
    }

    /// Flips a contiguous run of `min(len/2, 4)` to `min(len/2, 16)` bits at a drawn
    /// position that keeps it inside the buffer.
    pub fn burst_flip(rand: &mut XorShift, data: BitString) -> (r: BitString)
        requires
            data@.len() > 0,
        ensures
            r@ == burst(old(rand)@, data@),
            final(rand)@ == xorshift_next(burst_len_state(old(rand)@, data@.len())),
            burst_min(data@.len()) <= burst_len(old(rand)@, data@.len()) <= burst_max(
                data@.len(),
            ),
            0 <= burst_start(old(rand)@, data@.len()),
            burst_start(old(rand)@, data@.len()) + burst_len(old(rand)@, data@.len())
                <= data@.len(),
    {
        let mut flipped = data;
        let n = flipped.len();
        let half = n / 2;
        let lo: usize = if half < 4 {
            half
        } else {
            4
        };
        let hi: usize = if half < 16 {
            half
        } else {
            16
        };
        let len = rand.next_int_bound(lo as u128, hi as u128) as usize;
        let idx = (rand.next_int() % (n - len) as u128) as usize;
        flipped.flip_bits(idx, len);
        flipped
    }

    /// Derives a generator from `rand`, draws a chance and one of Clean, OneBitFlip,
    /// MultiBitFlipOdd, MultiBitFlipEven and BurstFlip, and applies it.
    pub fn random(rand: &mut XorShift, data: BitString) -> (r: BitString)
        requires
            data@.len() > 0,
        ensures
            final(rand)@ == xorshift_next(old(rand)@),
            r@ == pick_outcome(
                (random_draw(old(rand)@) % 5) as int,
                random_sub_state(old(rand)@),
                random_chance(old(rand)@),
                data@,
            ),
    {
        let mut sub = rand.copy_reset();
        let ghost r0 = sub@;
        let chance = (sub.next_int() % 101) as u8;
        assert(chance <= 100);
        let idx = sub.next_int() % 5;
        assert(xorshift_nth(r0, 2) == xorshift_next(xorshift_nth(r0, 1)));
        assert(xorshift_nth(r0, 1) == xorshift_next(xorshift_nth(r0, 0)));
        if idx == 0 {
            Corruption::no_corruption(data)
        } else if idx == 1 {
            Corruption::one_bit_flip(&mut sub, data)
        } else if idx == 2 {
            Corruption::multi_bit_flip_odd(&mut sub, chance, data)
        } else if idx == 3 {
            Corruption::multi_bit_flip_even(&mut sub, chance, data)
        } else {
            Corruption::burst_flip(&mut sub, data)
        }
    }

    /// As `random`, but never picks Clean.
    pub fn random_corruption(rand: &mut XorShift, data: BitString) -> (r: BitString)
        requires
            data@.len() > 0,
        ensures
            final(rand)@ == xorshift_next(old(rand)@),
            r@ == pick_outcome(
                (random_draw(old(rand)@) % 4) as int + 1,
                random_sub_state(old(rand)@),
                random_chance(old(rand)@),
                data@,
            ),
    {
        let mut sub = rand.copy_reset();
        let ghost r0 = sub@;
        let chance = (sub.next_int() % 101) as u8;
        assert(chance <= 100);
        let idx = sub.next_int() % 4;
        assert(xorshift_nth(r0, 2) == xorshift_next(xorshift_nth(r0, 1)));
        assert(xorshift_nth(r0, 1) == xorshift_next(xorshift_nth(r0, 0)));
        if idx == 0 {
            Corruption::one_bit_flip(&mut sub, data)
        } else if idx == 1 {
            Corruption::multi_bit_flip_odd(&mut sub, chance, data)
        } else if idx == 2 {
            Corruption::multi_bit_flip_even(&mut sub, chance, data)
        } else {
            Corruption::burst_flip(&mut sub, data)
        }
    }
}

/// Every strategy keeps the length of the data.
pub proof fn lemma_outcome_len(c: Corruption, d: Seq<Bit>)
    requires
        d.len() > 0,
    ensures
        c.outcome(d).len() == d.len(),
{
    let s = c.rng();
    lemma_even_flip_parity(s, 0, d);
    assert forall|idx: int, t: u128, chance: u8| #[trigger]
        pick_outcome(idx, t, chance, d).len() == d.len() by {
        lemma_even_flip_parity(t, chance, d);
        lemma_odd_flip_parity(t, chance, d);
    }
    match c {
        Corruption::MultiBitFlipOdd(_, chance) => lemma_odd_flip_parity(s, chance, d),
        Corruption::MultiBitFlipEven(_, chance) => lemma_even_flip_parity(s, chance, d),
        _ => {},
    }
}

} // verus!
