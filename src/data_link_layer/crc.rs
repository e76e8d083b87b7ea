//! Cyclic redundancy checks: a polynomial remainder over GF(2) appended to the data.
use crate::bit::Bit;
use crate::bit_string::{zeros, BitString};
use vstd::prelude::*;

verus! {

/// Element-wise exclusive or of two runs of bits of equal length.
pub open spec fn xor_seq(a: Seq<Bit>, b: Seq<Bit>) -> Seq<Bit> {
    Seq::new(a.len(), |i: int| a[i].xor_spec(b[i]))
}

/// One step of the long division: `b` is shifted into the register `r`; when the
/// bit that falls out at the front is set, the generator is subtracted (xor-ed)
/// from what is shifted along.
pub open spec fn crc_step(g: Seq<Bit>, r: Seq<Bit>, b: Bit) -> Seq<Bit> {
    let t = r.push(b);
    Seq::new(
        r.len(),
        |j: int| if t[0] == Bit::On { t[j + 1].xor_spec(g[j + 1]) } else { t[j + 1] },
    )
}

/// The register after the bits of `d` were shifted into `r`, first bit first.
pub open spec fn crc_fold(g: Seq<Bit>, r: Seq<Bit>, d: Seq<Bit>) -> Seq<Bit>
    decreases d.len(),
{
    if d.len() == 0 {
        r
    } else {
        crc_step(g, crc_fold(g, r, d.drop_last()), d.last())
    }
}

/// The remainder of `d` divided by the generator `g`: `g.len() - 1` bits.
pub open spec fn crc_remainder(g: Seq<Bit>, d: Seq<Bit>) -> Seq<Bit> {
    crc_fold(g, zeros((g.len() - 1) as nat), d)
}

/// `d` followed by the remainder of `d` shifted left by `g.len() - 1` places.
pub open spec fn crc_encode(g: Seq<Bit>, d: Seq<Bit>) -> Seq<Bit> {
    d + crc_remainder(g, d + zeros((g.len() - 1) as nat))
}

/// The payload of a received buffer `e`, when its remainder is zero.
pub open spec fn crc_decode(g: Seq<Bit>, e: Seq<Bit>) -> Option<Seq<Bit>> {
    if e.len() >= g.len() - 1 && crc_remainder(g, e) == zeros((g.len() - 1) as nat) {
        Some(e.subrange(0, e.len() - (g.len() - 1)))
    } else {
        None
    }
}

/// A generator is non-empty and starts with a set bit.
pub open spec fn valid_generator(g: Seq<Bit>) -> bool {
    g.len() > 0 && g[0] == Bit::On
}

/// Why a received buffer was refused.
#[derive(Debug, Clone, Copy, PartialEq, Eq, Structural)]
pub enum CrcError {
    /// The remainder is not zero: the buffer was corrupted.
    Integrity,
    /// The buffer is shorter than the remainder it should end with.
    Truncated,
}

pub proof fn lemma_fold_len(g: Seq<Bit>, r: Seq<Bit>, d: Seq<Bit>)
    ensures
        crc_fold(g, r, d).len() == r.len(),
    decreases d.len(),
{
    if d.len() > 0 {
        lemma_fold_len(g, r, d.drop_last());
    }
}

/// Shifting in `a` and then `b` is shifting in `a + b`.
pub proof fn lemma_fold_concat(g: Seq<Bit>, r: Seq<Bit>, a: Seq<Bit>, b: Seq<Bit>)
    ensures
        crc_fold(g, r, a + b) == crc_fold(g, crc_fold(g, r, a), b),
    decreases b.len(),
{
    if b.len() == 0 {
        assert(a + b =~= a);
    } else {
        assert((a + b).drop_last() =~= a + b.drop_last());
        assert((a + b).last() == b.last());
        lemma_fold_concat(g, r, a, b.drop_last());
    }
}

/// The division is linear over GF(2).
pub proof fn lemma_fold_linear(
    g: Seq<Bit>,
    r1: Seq<Bit>,
    r2: Seq<Bit>,
    a: Seq<Bit>,
    b: Seq<Bit>,
)
    requires
        r1.len() == r2.len(),
        r1.len() + 1 == g.len(),
        a.len() == b.len(),
    ensures
        crc_fold(g, xor_seq(r1, r2), xor_seq(a, b)) == xor_seq(
            crc_fold(g, r1, a),
            crc_fold(g, r2, b),
        ),
    decreases a.len(),
{
    if a.len() > 0 {
        let ab = xor_seq(a, b);
        assert(ab.drop_last() =~= xor_seq(a.drop_last(), b.drop_last()));
        lemma_fold_linear(g, r1, r2, a.drop_last(), b.drop_last());
        lemma_fold_len(g, r1, a.drop_last());
        lemma_fold_len(g, r2, b.drop_last());
        let f1 = crc_fold(g, r1, a.drop_last());
        let f2 = crc_fold(g, r2, b.drop_last());
        let t1 = f1.push(a.last());
        let t2 = f2.push(b.last());
        let t = xor_seq(f1, f2).push(ab.last());
        assert forall|j: int| 0 <= j < t.len() implies #[trigger] t[j] == t1[j].xor_spec(
            t2[j],
        ) by {}
        assert(crc_step(g, xor_seq(f1, f2), ab.last()) =~= xor_seq(
            crc_step(g, f1, a.last()),
            crc_step(g, f2, b.last()),
        ));
    }
}

/// Zeroes shifted into a cleared register leave it cleared.
pub proof fn lemma_fold_zeros(g: Seq<Bit>, k: nat)
    requires
        g.len() > 0,
    ensures
        crc_fold(g, zeros((g.len() - 1) as nat), zeros(k)) == zeros((g.len() - 1) as nat),
    decreases k,
{
    if k > 0 {
        assert(zeros(k).drop_last() =~= zeros((k - 1) as nat));
        lemma_fold_zeros(g, (k - 1) as nat);
        assert(crc_step(g, zeros((g.len() - 1) as nat), Bit::Off) =~= zeros(
            (g.len() - 1) as nat,
        ));
    }
}

/// A dividend no longer than the register comes out as itself, zero-padded in front.
pub proof fn lemma_remainder_short(g: Seq<Bit>, d: Seq<Bit>)
    requires
        g.len() > 0,
        d.len() <= g.len() - 1,
    ensures
        crc_remainder(g, d) == zeros((g.len() - 1 - d.len()) as nat) + d,
    decreases d.len(),
{
    let m = (g.len() - 1) as nat;
    if d.len() == 0 {
        assert(zeros(m) + d =~= zeros(m));
    } else {
        let p = d.drop_last();
        lemma_remainder_short(g, p);
        let r = zeros((m - p.len()) as nat) + p;
        assert(r[0] == Bit::Off);
        assert(crc_step(g, r, d.last()) =~= zeros((m - d.len()) as nat) + d);
    }
}

/// The remainder of an encoded buffer is zero, and the buffer starts with the data.
pub proof fn lemma_encode_remainder_zero(g: Seq<Bit>, d: Seq<Bit>)
    requires
        g.len() > 0,
    ensures
        crc_encode(g, d).len() == d.len() + g.len() - 1,
        crc_encode(g, d).subrange(0, d.len() as int) == d,
        crc_remainder(g, crc_encode(g, d)) == zeros((g.len() - 1) as nat),
{
    let m = (g.len() - 1) as nat;
    let z = zeros(m);
    let c = crc_remainder(g, d + z);
    lemma_fold_len(g, z, d + z);
    let e = crc_encode(g, d);
    assert(e.subrange(0, d.len() as int) =~= d);
    // e = (d + z) xor (zeros(|d|) + c)
    assert(e =~= xor_seq(d + z, zeros(d.len()) + c));
    assert(z =~= xor_seq(z, z));
    lemma_fold_linear(g, z, z, d + z, zeros(d.len()) + c);
    lemma_fold_concat(g, z, zeros(d.len()), c);
    lemma_fold_zeros(g, d.len());
    lemma_remainder_short(g, c);
    assert(zeros((m - c.len()) as nat) + c =~= c);
    assert(xor_seq(c, c) =~= z);
}

/// Encoding and then decoding gives the data back.
pub proof fn lemma_crc_round_trip(g: Seq<Bit>, d: Seq<Bit>)
    requires
        valid_generator(g),
        d.len() > 0,
    ensures
        crc_decode(g, crc_encode(g, d)) == Some(d),
{
    lemma_encode_remainder_zero(g, d);
}

/// The register holds at least one set bit.
pub open spec fn any_set(r: Seq<Bit>) -> bool {
    exists|j: int| 0 <= j < r.len() && r[j] == Bit::On
}

/// With a generator that ends in a set bit, shifting zeroes into a register that
/// holds a set bit keeps a set bit in it.
proof fn lemma_fold_zeros_keeps_set(g: Seq<Bit>, r: Seq<Bit>, k: nat)
    requires
        g.len() >= 2,
        g.last() == Bit::On,
        r.len() + 1 == g.len(),
        any_set(r),
    ensures
        any_set(crc_fold(g, r, zeros(k))),
    decreases k,
{
    if k > 0 {
        assert(zeros(k).drop_last() =~= zeros((k - 1) as nat));
        lemma_fold_zeros_keeps_set(g, r, (k - 1) as nat);
        let f = crc_fold(g, r, zeros((k - 1) as nat));
        lemma_fold_len(g, r, zeros((k - 1) as nat));
        let m = f.len();
        let next = crc_step(g, f, Bit::Off);
        if f[0] == Bit::On {
            assert(next[m - 1] == Bit::On);
        } else {
            let j = choose|j: int| 0 <= j < f.len() && f[j] == Bit::On;
            assert(next[j - 1] == Bit::On);
        }
    }
}

/// A single flipped bit in an encoded buffer is always caught, when the generator
/// has at least two bits and ends in a set bit.
pub proof fn lemma_crc_detects_single_flip(g: Seq<Bit>, d: Seq<Bit>, i: int)
    requires
        valid_generator(g),
        g.len() >= 2,
        g.last() == Bit::On,
        0 <= i < crc_encode(g, d).len(),
    ensures
        crc_decode(g, crc_encode(g, d).update(i, crc_encode(g, d)[i].flipped())).is_none(),
{
    let m = (g.len() - 1) as nat;
    let z = zeros(m);
    let e = crc_encode(g, d);
    lemma_encode_remainder_zero(g, d);
    let n = e.len();
    let p = zeros(i as nat) + seq![Bit::On] + zeros((n - i - 1) as nat);
    let flipped = e.update(i, e[i].flipped());
    assert(flipped =~= xor_seq(e, p));
    assert(z =~= xor_seq(z, z));
    lemma_fold_linear(g, z, z, e, p);
    lemma_fold_concat(g, z, zeros(i as nat) + seq![Bit::On], zeros((n - i - 1) as nat));
    lemma_fold_concat(g, z, zeros(i as nat), seq![Bit::On]);
    lemma_fold_zeros(g, i as nat);
    lemma_remainder_short(g, seq![Bit::On]);
    let r1 = zeros((m - 1) as nat) + seq![Bit::On];
    assert(r1[m - 1] == Bit::On);
    lemma_fold_zeros_keeps_set(g, r1, (n - i - 1) as nat);
    let rp = crc_remainder(g, p);
    lemma_fold_len(g, z, p);
    lemma_fold_len(g, z, e);
    assert(xor_seq(z, rp) =~= rp);
    let j = choose|j: int| 0 <= j < rp.len() && rp[j] == Bit::On;
    assert(crc_remainder(g, flipped)[j] == Bit::On);
    assert(crc_remainder(g, flipped) != z);
}

/// The number of set bits.
pub open spec fn weight(s: Seq<Bit>) -> nat
    decreases s.len(),
{
    if s.len() == 0 {
        0
    } else {
        weight(s.drop_last()) + s.last().value()
    }
}

proof fn lemma_weight_xor(a: Seq<Bit>, b: Seq<Bit>)
    requires
        a.len() == b.len(),
    ensures
        weight(xor_seq(a, b)) % 2 == (weight(a) + weight(b)) % 2,
    decreases a.len(),
{
    if a.len() > 0 {
        assert(xor_seq(a, b).drop_last() =~= xor_seq(a.drop_last(), b.drop_last()));
        lemma_weight_xor(a.drop_last(), b.drop_last());
    }
}

proof fn lemma_weight_drop_first(s: Seq<Bit>)
    requires
        s.len() > 0,
    ensures
        weight(s) == s[0].value() + weight(s.drop_first()),
    decreases s.len(),
{
    if s.len() > 1 {
        assert(s.drop_last().drop_first() =~= s.drop_first().drop_last());
        assert(s.drop_first().last() == s.last());
        lemma_weight_drop_first(s.drop_last());
    } else {
        assert(s.drop_first().len() == 0);
        assert(s.drop_last().len() == 0);
        assert(weight(s.drop_first()) == 0);
        assert(weight(s.drop_last()) == 0);
    }
}

proof fn lemma_weight_zeros(n: nat)
    ensures
        weight(zeros(n)) == 0,
    decreases n,
{
    if n > 0 {
        assert(zeros(n).drop_last() =~= zeros((n - 1) as nat));
        lemma_weight_zeros((n - 1) as nat);
    }
}

/// With a generator of even weight, the division keeps the parity of what went in.
proof fn lemma_fold_parity(g: Seq<Bit>, r: Seq<Bit>, d: Seq<Bit>)
    requires
        valid_generator(g),
        weight(g) % 2 == 0,
        r.len() + 1 == g.len(),
    ensures
        weight(crc_fold(g, r, d)) % 2 == (weight(r) + weight(d)) % 2,
    decreases d.len(),
{
    if d.len() > 0 {
        lemma_fold_parity(g, r, d.drop_last());
        let f = crc_fold(g, r, d.drop_last());
        lemma_fold_len(g, r, d.drop_last());
        let t = f.push(d.last());
        assert(t.drop_last() =~= f);
        let next = crc_step(g, f, d.last());
        if t[0] == Bit::On {
            lemma_weight_xor(t, g);
            let x = xor_seq(t, g);
            lemma_weight_drop_first(x);
            assert(next =~= x.drop_first());
        } else {
            lemma_weight_drop_first(t);
            assert(next =~= t.drop_first());
        }
    }
}

/// An odd number of flipped bits in an encoded buffer is always caught, when the
/// generator has an even number of set bits.
pub proof fn lemma_crc_detects_odd_flips(g: Seq<Bit>, d: Seq<Bit>, p: Seq<Bit>)
    requires
        valid_generator(g),
        weight(g) % 2 == 0,
        p.len() == crc_encode(g, d).len(),
        weight(p) % 2 == 1,
    ensures
        crc_decode(g, xor_seq(crc_encode(g, d), p)).is_none(),
{
    let m = (g.len() - 1) as nat;
    let e = crc_encode(g, d);
    lemma_encode_remainder_zero(g, d);
    lemma_weight_zeros(m);
    lemma_fold_parity(g, zeros(m), e);
    lemma_fold_parity(g, zeros(m), xor_seq(e, p));
    lemma_weight_xor(e, p);
}

/// Divides `divident` by `divisor` over GF(2) and returns the `divisor.len() - 1`
/// bits of the remainder.
pub fn binary_division(divident: &BitString, divisor: &BitString) -> (r: BitString)
    requires
        divisor@.len() > 0,
    ensures
        r@ == crc_remainder(divisor@, divident@),
        divident@.len() < divisor@.len() ==> r@ == zeros(
            (divisor@.len() - 1 - divident@.len()) as nat,
        ) + divident@,
{
    let m = divisor.len() - 1;
    let mut reg = BitString::with_zeroes(m);
    let n = divident.len();
    let mut i: usize = 0;
    while i < n
        invariant
            m + 1 == divisor@.len(),
            n == divident@.len(),
            i <= n,
            reg@ == crc_fold(divisor@, zeros(m as nat), divident@.subrange(0, i as int)),
        decreases n - i,
    {
        proof {
            lemma_fold_len(divisor@, zeros(m as nat), divident@.subrange(0, i as int));
        }
        let b = *divident.get_bit(i);
        let lead = if m == 0 {
            b
        } else {
            *reg.get_bit(0)
        };
        let ghost t = reg@.push(b);
        let mut next = BitString::with_capacity(m);
        let mut j: usize = 0;
        while j < m
            invariant
                m + 1 == divisor@.len(),
                reg@.len() == m,
                t == reg@.push(b),
                lead == t[0],
                j <= m,
                next@ == crc_step(divisor@, reg@, b).subrange(0, j as int),
            decreases m - j,
        {
            let shifted = if j + 1 < m {
                *reg.get_bit(j + 1)
            } else {
                b
            };
            let nb = if lead == Bit::On {
                shifted.xor_bit(*divisor.get_bit(j + 1))
            } else {
                shifted
            };
            next.append_bit(nb);
            j += 1;
            assert(next@ =~= crc_step(divisor@, reg@, b).subrange(0, j as int));
        }
        assert(next@ =~= crc_step(divisor@, reg@, b));
        reg = next;
        i += 1;
        assert(divident@.subrange(0, i as int).drop_last() =~= divident@.subrange(0, i - 1));
    }
    assert(divident@.subrange(0, n as int) =~= divident@);
    proof {
        if divident@.len() < divisor@.len() {
            lemma_remainder_short(divisor@, divident@);
        }
    }
    reg
}

/// Appends the CRC of `data` for `generator`.
pub fn add(generator: &BitString, data: BitString) -> (r: BitString)
    requires
        valid_generator(generator@),
        data@.len() > 0,
    ensures
        r@ == crc_encode(generator@, data@),
{
    let mut encoded = data;
    let m = generator.len() - 1;
    encoded.append_zeroes(m);
    let crc = binary_division(&encoded, generator);
    proof {
        lemma_fold_len(generator@, zeros(m as nat), encoded@);
    }
    let start = encoded.len() - crc.len();
    encoded.set_bits(start, &crc);
    assert(encoded@ =~= crc_encode(generator@, data@));
    encoded
}

/// Checks the CRC at the end of `data` and strips it.
pub fn check_and_remove(generator: &BitString, data: BitString) -> (r: Result<
    BitString,
    CrcError,
>)
    requires
        valid_generator(generator@),
    ensures
        r.is_ok() == crc_decode(generator@, data@).is_some(),
        r.is_ok() ==> r.unwrap()@ == crc_decode(generator@, data@).unwrap(),
        data@.len() < generator@.len() - 1 ==> r == Err::<BitString, CrcError>(
            CrcError::Truncated,
        ),
        data@.len() >= generator@.len() - 1 && r.is_err() ==> r == Err::<BitString, CrcError>(
            CrcError::Integrity,
        ),
{
    let ghost d0 = data@;
    let mut received = data;
    let m = generator.len() - 1;
    if received.len() < m {
        return Err(CrcError::Truncated);
    }
    let rem = binary_division(&received, generator);
    let ghost z = zeros(m as nat);
    proof {
        lemma_fold_len(generator@, z, d0);
    }
    let mut i: usize = 0;
    while i < rem.len()
        invariant
            rem@.len() == m,
            m + 1 == generator@.len(),
            z == zeros(m as nat),
            received@ == d0,
            data@ == d0,
            d0.len() >= m,
            rem@ == crc_remainder(generator@, d0),
            i <= m,
            forall|j: int| 0 <= j < i ==> rem@[j] == Bit::Off,
        decreases m - i,
    {
        if *rem.get_bit(i) == Bit::On {
            assert(z[i as int] == Bit::Off);
            assert(rem@[i as int] != z[i as int]);
            return Err(CrcError::Integrity);
        }
        i += 1;
    }
    assert(rem@ =~= z);
    let _ = received.remove_last_len(m);
    Ok(received)
}

} // verus!
