//! Hardware addresses of the simulated endpoints.
use super::rand::{xorshift_next, XorShift};
use vstd::arithmetic::div_mod::lemma_div_denominator;
use vstd::prelude::*;

verus! {

/// The six octets of a hardware address.
#[derive(Debug, Clone, Copy)]
pub struct MacAddress {
    addr: [u8; 6],
}

impl View for MacAddress {
    type V = Seq<u8>;

    closed spec fn view(&self) -> Seq<u8> {
        self.addr@
    }
}

impl MacAddress {
    pub fn new(addr: [u8; 6]) -> (r: MacAddress)
        ensures
            r@ == addr@,
    {
        MacAddress { addr }
    }

    /// The six octets.
    pub fn octets(&self) -> (r: [u8; 6])
        ensures
            r@ == self@,
    {
        self.addr
    }
}

impl PartialEq for MacAddress {
    fn eq(&self, other: &MacAddress) -> (r: bool) {
        let r = self.addr[0] == other.addr[0] && self.addr[1] == other.addr[1] && self.addr[2]
            == other.addr[2] && self.addr[3] == other.addr[3] && self.addr[4] == other.addr[4]
            && self.addr[5] == other.addr[5];
        proof {
            assert(self@.len() == 6 && other@.len() == 6);
            if r {
                assert(self@ =~= other@);
            }
        }
        r
    }
}

impl vstd::std_specs::cmp::PartialEqSpecImpl for MacAddress {
    open spec fn obeys_eq_spec() -> bool {
        true
    }

    open spec fn eq_spec(&self, other: &MacAddress) -> bool {
        self@ == other@
    }
}

impl Eq for MacAddress {

}

/// The address whose octets are the six lowest octets of `n`, lowest first.
pub open spec fn mac_of(n: u128) -> Seq<u8> {
    Seq::new(6, |i: int| ((n as nat / pow256(i as nat)) % 256) as u8)
}

/// `256` to the power `k`.
pub open spec fn pow256(k: nat) -> nat
    decreases k,
{
    if k == 0 {
        1
    } else {
        256 * pow256((k - 1) as nat)
    }
}

proof fn lemma_pow256_pos(k: nat)
    ensures
        pow256(k) > 0,
    decreases k,
{
    if k > 0 {
        lemma_pow256_pos((k - 1) as nat);
    }
}

/// Hands out addresses drawn from a seeded generator.
pub struct MacAddressGenerator {
    rand: XorShift,
}

impl View for MacAddressGenerator {
    type V = u128;

    closed spec fn view(&self) -> u128 {
        self.rand@
    }
}

impl MacAddressGenerator {
    pub fn new(seed: u128) -> (r: MacAddressGenerator)
        ensures
            r@ == seed,
    {
        MacAddressGenerator { rand: XorShift::new(seed) }
    }

    /// The next address: the six lowest octets of the generator's next number.
    pub fn gen_addr(&mut self) -> (r: MacAddress)
        ensures
            final(self)@ == xorshift_next(old(self)@),
            r@ == mac_of(final(self)@),
    {
        let n = self.rand.next_int();
        let mut num = n;
        let mut addr: [u8; 6] = [0, 0, 0, 0, 0, 0];
        let mut i: usize = 0;
        assert(pow256(0) == 1);
        while i < 6
            invariant
                i <= 6,
                num as nat == n as nat / pow256(i as nat),
                forall|j: int| 0 <= j < i ==> addr@[j] == mac_of(n)[j],
            decreases 6 - i,
        {
            addr[i] = (num % 256) as u8;
            proof {
                lemma_pow256_pos(i as nat);
                lemma_div_denominator(n as int, pow256(i as nat) as int, 256);
                assert(pow256((i + 1) as nat) == pow256(i as nat) * 256);
            }
            num = num / 256;
            i += 1;
        }
        MacAddress::new(addr)
    }
}

} // verus!
