//! A small xorshift generator: deterministic from its seed, not for cryptography.
use vstd::prelude::*;

verus! {

/// The state after one step of the generator.
pub open spec fn xorshift_next(s: u128) -> u128 {
    let a = s ^ (s << 23u32);
    let b = a ^ (a >> 17u32);
    b ^ (b << 26u32)
}

/// The state after `k` steps of the generator.
pub open spec fn xorshift_nth(s: u128, k: nat) -> u128
    decreases k,
{
    if k == 0 {
        s
    } else {
        xorshift_next(xorshift_nth(s, (k - 1) as nat))
    }
}

/// The seed of the generator that `copy_reset` derives from state `s`.
pub open spec fn reset_seed(s: u128) -> u128 {
    let a = s ^ xorshift_next(s);
    let b = a ^ (a >> 13u32);
    let c = b ^ (b << 5u32);
    c ^ (c >> 11u32)
}

/// A pseudo-random generator whose whole state is one 128-bit word.
#[derive(Clone, PartialEq, Eq, Debug, Structural)]
pub struct XorShift {
    state: u128,
}

impl View for XorShift {
    type V = u128;

    closed spec fn view(&self) -> u128 {
        self.state
    }
}

impl XorShift {
    /// A generator started from `seed`.
    pub fn new(seed: u128) -> (r: XorShift)
        ensures
            r@ == seed,
    {
        XorShift { state: seed }
    }

    /// Advances the generator and returns its new state.
    pub fn next_int(&mut self) -> (r: u128)
        ensures
            final(self)@ == xorshift_next(old(self)@),
            r == final(self)@,
    {
        self.state = self.state ^ (self.state << 23u32);
        self.state = self.state ^ (self.state >> 17u32);
        self.state = self.state ^ (self.state << 26u32);
        self.state
    }

    /// A number in `[min, max)`, or `min` when the two are equal; only then the
    /// generator does not advance.
    pub fn next_int_bound(&mut self, min: u128, max: u128) -> (r: u128)
        requires
            min <= max,
        ensures
            min == max ==> r == min && final(self)@ == old(self)@,
            min < max ==> final(self)@ == xorshift_next(old(self)@) && r == min + (final(self)@ as int)
                % ((max - min) as int),
            min <= r <= max,
            min < max ==> r < max,
    {
        if min == max {
            return min;
        }
        let diff = max - min;
        min + (self.next_int() % diff)
    }

    /// Advances the generator and derives a fresh generator from what it drew.
    pub fn copy_reset(&mut self) -> (r: XorShift)
        ensures
            final(self)@ == xorshift_next(old(self)@),
            r@ == reset_seed(old(self)@),
    {
        let self_state = self.state;
        let mut reset_state = self_state ^ self.next_int();
        reset_state = reset_state ^ (reset_state >> 13u32);
        reset_state = reset_state ^ (reset_state << 5u32);
        reset_state = reset_state ^ (reset_state >> 11u32);
        XorShift { state: reset_state }
    }
}

} // verus!
