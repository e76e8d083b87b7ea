//! Bit stuffing: after every run of five set bits a clear bit is inserted, so that
//! the flag octet can never appear inside a stuffed frame.
use crate::bit::Bit;
use crate::bit_string::BitString;
use crate::word::{
    lemma_pow2_128, lemma_value_of_word_bits, lemma_word_bits_len, lemma_word_bits_of_value,
    word_bits,
};
use vstd::prelude::*;

verus! {

/// The octet that opens and closes every frame on the wire.
pub const FLAG_SEQUECE: u8 = 0b0111_1110u8;

/// The bits of the flag octet.
pub open spec fn flag_bits() -> Seq<Bit> {
    word_bits(FLAG_SEQUECE as nat, 8)
}

/// `s` stuffed, when the `count` bits before it were set.
pub open spec fn stuff_from(count: nat, s: Seq<Bit>) -> Seq<Bit>
    decreases s.len(),
{
    if s.len() == 0 {
        Seq::empty()
    } else if s[0] == Bit::On {
        if count + 1 == 5 {
            seq![Bit::On, Bit::Off] + stuff_from(0, s.drop_first())
        } else {
            seq![Bit::On] + stuff_from(count + 1, s.drop_first())
        }
    } else {
        seq![Bit::Off] + stuff_from(0, s.drop_first())
    }
}

/// `s` with the bit after every run of five set bits taken out, when the `count`
/// bits before it were set.
pub open spec fn unstuff_from(count: nat, s: Seq<Bit>) -> Seq<Bit>
    decreases s.len(),
{
    if s.len() == 0 {
        Seq::empty()
    } else if count == 5 {
        unstuff_from(0, s.drop_first())
    } else if s[0] == Bit::On {
        seq![Bit::On] + unstuff_from(count + 1, s.drop_first())
    } else {
        seq![Bit::Off] + unstuff_from(0, s.drop_first())
    }
}

/// `s` with a clear bit inserted after every run of five set bits.
pub open spec fn stuffed(s: Seq<Bit>) -> Seq<Bit> {
    stuff_from(0, s)
}

/// `s` with the bit after every run of five set bits taken out.
pub open spec fn unstuffed(s: Seq<Bit>) -> Seq<Bit> {
    unstuff_from(0, s)
}

/// `s` stuffed and framed by two flag octets.
pub open spec fn prepared(s: Seq<Bit>) -> Seq<Bit> {
    flag_bits() + stuffed(s) + flag_bits()
}

proof fn lemma_unstuff_stuff_from(count: nat, s: Seq<Bit>)
    requires
        count < 5,
    ensures
        unstuff_from(count, stuff_from(count, s)) == s,
    decreases s.len(),
{
    if s.len() > 0 {
        let rest = s.drop_first();
        let st = stuff_from(count, s);
        lemma_unstuff_stuff_from(0, rest);
        if s[0] == Bit::On {
            assert(s =~= seq![Bit::On] + rest);
            if count + 1 == 5 {
                let tail = stuff_from(0, rest);
                let after = seq![Bit::Off] + tail;
                assert(st.drop_first() =~= after);
                assert(after.drop_first() =~= tail);
                assert(unstuff_from(5, after) == unstuff_from(0, tail));
                assert(unstuff_from(count, st) == seq![Bit::On] + unstuff_from(5, after));
            } else {
                lemma_unstuff_stuff_from(count + 1, rest);
                assert(st.drop_first() =~= stuff_from(count + 1, rest));
                assert(unstuff_from(count, st) == seq![Bit::On] + unstuff_from(
                    count + 1,
                    stuff_from(count + 1, rest),
                ));
            }
        } else {
            assert(st.drop_first() =~= stuff_from(0, rest));
            assert(s =~= seq![Bit::Off] + rest);
            assert(unstuff_from(count, st) == seq![Bit::Off] + unstuff_from(0, stuff_from(0, rest)));
        }
    }
}

/// Unstuffing a stuffed buffer gives the buffer back.
pub proof fn lemma_stuffing_round_trip(s: Seq<Bit>)
    ensures
        unstuffed(stuffed(s)) == s,
{
    lemma_unstuff_stuff_from(0, s);
}

/// A prepared buffer begins and ends with the flag octet.
pub proof fn lemma_prepared_flags(s: Seq<Bit>)
    ensures
        prepared(s).len() >= 16,
        prepared(s).subrange(0, 8) == flag_bits(),
        prepared(s).subrange(prepared(s).len() - 8, prepared(s).len() as int) == flag_bits(),
{
    lemma_word_bits_len(FLAG_SEQUECE as nat, 8);
    let p = prepared(s);
    assert(p.subrange(0, 8) =~= flag_bits());
    assert(p.subrange(p.len() - 8, p.len() as int) =~= flag_bits());
}

/// Stuffs `data` and frames it with flag octets.
pub fn prepare_bits(data: BitString) -> (r: BitString)
    ensures
        r@ == prepared(data@),
        r@.subrange(0, 8) == flag_bits(),
        r@.subrange(r@.len() - 8, r@.len() as int) == flag_bits(),
{
    let bs = stuff_bits(data);
    let r = surround_flags(bs);
    proof {
        lemma_prepared_flags(data@);
    }
    r
}

/// What the receiving side makes of `e`: the unstuffed bits between the two flag
/// octets, when `e` is framed by them.
pub open spec fn received(e: Seq<Bit>) -> Option<Seq<Bit>> {
    if e.len() >= 16 && e.subrange(0, 8) == flag_bits() && e.subrange(e.len() - 8, e.len() as int)
        == flag_bits() {
        Some(unstuffed(e.subrange(8, e.len() - 8)))
    } else {
        None
    }
}

/// Receiving a prepared buffer gives the data back.
pub proof fn lemma_prepare_receive(s: Seq<Bit>)
    ensures
        received(prepared(s)) == Some(s),
{
    lemma_prepared_flags(s);
    lemma_word_bits_len(FLAG_SEQUECE as nat, 8);
    let p = prepared(s);
    assert(p.subrange(8, p.len() - 8) =~= stuffed(s));
    lemma_stuffing_round_trip(s);
}

/// Strips the flag octets from both ends of `data` and unstuffs what lies
/// between; `None` when `data` is not framed by flag octets.
pub fn receive_bits(data: BitString) -> (r: Option<BitString>)
    ensures
        r.is_some() == received(data@).is_some(),
        r.is_some() ==> r.unwrap()@ == received(data@).unwrap(),
{
    proof {
        lemma_word_bits_len(FLAG_SEQUECE as nat, 8);
    }
    let n = data.len();
    if n < 16 {
        return None;
    }
    let head = data.get_exact_u8(0);
    let tail = data.get_exact_u8(n - 8);
    proof {
        lemma_pow2_128();
        lemma_value_of_word_bits(FLAG_SEQUECE as nat, 8);
        lemma_word_bits_of_value(data@.subrange(0, 8));
        lemma_word_bits_of_value(data@.subrange(n - 8, n as int));
    }
    match (head, tail) {
        (Ok(h), Ok(t)) => {
            if h != FLAG_SEQUECE || t != FLAG_SEQUECE {
                return None;
            }
        },
        _ => {
            return None;
        },
    }
    let inner = data.copy_len(8, n - 16);
    Some(unstuff_bits(inner))
}

/// Takes out the clear bit that follows every run of five set bits.
pub fn unstuff_bits(data: BitString) -> (r: BitString)
    ensures
        r@ == unstuffed(data@),
{
    let n = data.len();
    let mut out = BitString::with_capacity(n);
    let mut count: usize = 0;
    let mut i: usize = 0;
    assert(data@.subrange(0, n as int) =~= data@);
    assert(out@ + unstuffed(data@) =~= unstuffed(data@));
    while i < n
        invariant
            n == data@.len(),
            i <= n,
            count <= 5,
            out@ + unstuff_from(count as nat, data@.subrange(i as int, n as int)) == unstuffed(
                data@,
            ),
        decreases n - i,
    {
        let ghost rest = data@.subrange(i as int, n as int);
        assert(rest.drop_first() =~= data@.subrange(i + 1, n as int));
        let bit = *data.get_bit(i);
        let ghost before = out@;
        if count == 5 {
            count = 0;
        } else if bit == Bit::On {
            out.append_bit(bit);
            count += 1;
            assert(before.push(Bit::On) + unstuff_from(count as nat, rest.drop_first()) =~= before
                + (seq![Bit::On] + unstuff_from(count as nat, rest.drop_first())));
        } else {
            out.append_bit(bit);
            count = 0;
            assert(before.push(Bit::Off) + unstuff_from(0, rest.drop_first()) =~= before + (
            seq![Bit::Off] + unstuff_from(0, rest.drop_first())));
        }
        i += 1;
    }
    assert(out@ + unstuff_from(count as nat, data@.subrange(n as int, n as int)) =~= out@);
    out
}

/// Inserts a clear bit after every run of five set bits.
pub fn stuff_bits(data: BitString) -> (r: BitString)
    ensures
        r@ == stuffed(data@),
{
    let n = data.len();
    let mut out = BitString::with_capacity(n);
    let mut count: usize = 0;
    let mut i: usize = 0;
    assert(data@.subrange(0, n as int) =~= data@);
    assert(out@ + stuffed(data@) =~= stuffed(data@));
    while i < n
        invariant
            n == data@.len(),
            i <= n,
            count < 5,
            out@ + stuff_from(count as nat, data@.subrange(i as int, n as int)) == stuffed(
                data@,
            ),
        decreases n - i,
    {
        let ghost rest = data@.subrange(i as int, n as int);
        assert(rest.drop_first() =~= data@.subrange(i + 1, n as int));
        let bit = *data.get_bit(i);
        let ghost before = out@;
        out.append_bit(bit);
        if bit == Bit::On {
            if count + 1 == 5 {
                out.append_bit(Bit::Off);
                count = 0;
                assert(before.push(Bit::On).push(Bit::Off) + stuff_from(0, rest.drop_first())
                    =~= before + (seq![Bit::On, Bit::Off] + stuff_from(0, rest.drop_first())));
            } else {
                count += 1;
                assert(before.push(Bit::On) + stuff_from(count as nat, rest.drop_first())
                    =~= before + (seq![Bit::On] + stuff_from(count as nat, rest.drop_first())));
            }
        } else {
            count = 0;
            assert(before.push(Bit::Off) + stuff_from(0, rest.drop_first()) =~= before + (
            seq![Bit::Off] + stuff_from(0, rest.drop_first())));
        }
        i += 1;
    }
    assert(out@ + stuff_from(count as nat, data@.subrange(n as int, n as int)) =~= out@);
    out
}

/// Puts a flag octet in front of and behind `data`.
pub fn surround_flags(data: BitString) -> (r: BitString)
    ensures
        r@ == flag_bits() + data@ + flag_bits(),
{
    let mut data = data;
    data.prepend_u8(FLAG_SEQUECE);
    data.append_u8(FLAG_SEQUECE);
    data
}

} // verus!
