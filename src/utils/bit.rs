use vstd::prelude::*;

verus! {

/// One binary digit of a [`crate::bit_string::BitString`].
#[derive(Debug, Clone, Copy, PartialEq, Eq, Structural)]
pub enum Bit {
    Off,
    On,
}

/// The value handed to a bit conversion was neither zero nor one.
#[derive(Debug, Clone, Copy, PartialEq, Eq, Structural)]
pub struct NotABit {
    pub value: u128,
}

/// The bit whose numeric value is `v` (any non-zero value reads as `On`).
pub open spec fn bit_of(v: int) -> Bit {
    if v == 0 {
        Bit::Off
    } else {
        Bit::On
    }
}

impl Bit {
    pub const BITS: u32 = 1;

    /// The numeric value of the bit: one for `On`, zero for `Off`.
    pub open spec fn value(self) -> nat {
        match self {
            Bit::On => 1,
            Bit::Off => 0,
        }
    }

    /// The other bit.
    pub open spec fn flipped(self) -> Bit {
        match self {
            Bit::On => Bit::Off,
            Bit::Off => Bit::On,
        }
    }

    /// Exclusive or of two bits.
    pub open spec fn xor_spec(self, other: Bit) -> Bit {
        if self == other {
            Bit::Off
        } else {
            Bit::On
        }
    }

    /// Conjunction of two bits.
    pub open spec fn and_spec(self, other: Bit) -> Bit {
        if self == Bit::On && other == Bit::On {
            Bit::On
        } else {
            Bit::Off
        }
    }

    /// Disjunction of two bits.
    pub open spec fn or_spec(self, other: Bit) -> Bit {
        if self == Bit::On || other == Bit::On {
            Bit::On
        } else {
            Bit::Off
        }
    }

    /// The digit that prints this bit.
    pub fn stringify(&self) -> (r: &'static str)
        ensures
            r@ == (if *self == Bit::On { "1"@ } else { "0"@ }),
    {
        proof {
            reveal_strlit("0");
            reveal_strlit("1");
        }
        match self {
            Bit::Off => "0",
            Bit::On => "1",
        }
    }

    pub fn flip(&mut self)
        ensures
            *final(self) == old(self).flipped(),
    {
        *self = self.not_bit();
    }

    /// The other bit, as a plain method.
    pub fn not_bit(self) -> (r: Bit)
        ensures
            r == self.flipped(),
    {
        match self {
            Bit::Off => Bit::On,
            Bit::On => Bit::Off,
        }
    }

    /// Exclusive or, as a plain method.
    pub fn xor_bit(self, rhs: Bit) -> (r: Bit)
        ensures
            r == self.xor_spec(rhs),
    {
        match (self, rhs) {
            (Bit::Off, Bit::Off) => Bit::Off,
            (Bit::Off, Bit::On) => Bit::On,
            (Bit::On, Bit::Off) => Bit::On,
            (Bit::On, Bit::On) => Bit::Off,
        }
    }

    /// Conjunction, as a plain method.
    pub fn and_bit(self, rhs: Bit) -> (r: Bit)
        ensures
            r == self.and_spec(rhs),
    {
        match (self, rhs) {
            (Bit::On, Bit::On) => Bit::On,
            _ => Bit::Off,
        }
    }

    /// Disjunction, as a plain method.
    pub fn or_bit(self, rhs: Bit) -> (r: Bit)
        ensures
            r == self.or_spec(rhs),
    {
        match (self, rhs) {
            (Bit::Off, Bit::Off) => Bit::Off,
            _ => Bit::On,
        }
    }

    /// The bit of numeric value `value`; any other value is refused.
    pub fn from_value(value: u128) -> (r: Result<Bit, NotABit>)
        ensures
            value == 0 ==> r == Ok::<Bit, NotABit>(Bit::Off),
            value == 1 ==> r == Ok::<Bit, NotABit>(Bit::On),
            value > 1 ==> r == Err::<Bit, NotABit>(NotABit { value }),
    {
        if value == 0 {
            Ok(Bit::Off)
        } else if value == 1 {
            Ok(Bit::On)
        } else {
            Err(NotABit { value })
        }
    }
}

impl core::ops::BitXor for Bit {
    type Output = Bit;

    fn bitxor(self, rhs: Bit) -> (r: Bit) {
        self.xor_bit(rhs)
    }
}

impl vstd::std_specs::ops::BitXorSpecImpl for Bit {
    open spec fn obeys_bitxor_spec() -> bool {
        true
    }

    open spec fn bitxor_req(self, rhs: Bit) -> bool {
        true
    }

    open spec fn bitxor_spec(self, rhs: Bit) -> Bit {
        self.xor_spec(rhs)
    }
}

impl core::ops::BitAnd for Bit {
    type Output = Bit;

    fn bitand(self, rhs: Bit) -> (r: Bit) {
        self.and_bit(rhs)
    }
}

impl vstd::std_specs::ops::BitAndSpecImpl for Bit {
    open spec fn obeys_bitand_spec() -> bool {
        true
    }

    open spec fn bitand_req(self, rhs: Bit) -> bool {
        true
    }

    open spec fn bitand_spec(self, rhs: Bit) -> Bit {
        self.and_spec(rhs)
    }
}

impl core::ops::BitOr for Bit {
    type Output = Bit;

    fn bitor(self, rhs: Bit) -> (r: Bit) {
        self.or_bit(rhs)
    }
}

impl vstd::std_specs::ops::BitOrSpecImpl for Bit {
    open spec fn obeys_bitor_spec() -> bool {
        true
    }

    open spec fn bitor_req(self, rhs: Bit) -> bool {
        true
    }

    open spec fn bitor_spec(self, rhs: Bit) -> Bit {
        self.or_spec(rhs)
    }
}

impl core::ops::BitXorAssign for Bit {
    fn bitxor_assign(&mut self, rhs: Bit) {
        *self = self.xor_bit(rhs);
    }
}

impl core::ops::BitAndAssign for Bit {
    fn bitand_assign(&mut self, rhs: Bit) {
        *self = self.and_bit(rhs);
    }
}

impl core::ops::BitOrAssign for Bit {
    fn bitor_assign(&mut self, rhs: Bit) {
        *self = self.or_bit(rhs);
    }
}

impl core::ops::Not for Bit {
    type Output = Bit;

    fn not(self) -> (r: Bit) {
        self.not_bit()
    }
}

impl vstd::std_specs::ops::NotSpecImpl for Bit {
    open spec fn obeys_not_spec() -> bool {
        true
    }

    open spec fn not_req(self) -> bool {
        true
    }

    open spec fn not_spec(self) -> Bit {
        self.flipped()
    }
}

impl From<bool> for Bit {
    fn from(value: bool) -> (r: Bit) {
        if value {
            Bit::On
        } else {
            Bit::Off
        }
    }
}

impl vstd::std_specs::convert::FromSpecImpl<bool> for Bit {
    open spec fn obeys_from_spec() -> bool {
        true
    }

    open spec fn from_spec(v: bool) -> Bit {
        if v {
            Bit::On
        } else {
            Bit::Off
        }
    }
}

impl From<Bit> for u8 {
    fn from(bit: Bit) -> (r: u8) {
        match bit {
            Bit::On => 1,
            Bit::Off => 0,
        }
    }
}

impl vstd::std_specs::convert::FromSpecImpl<Bit> for u8 {
    open spec fn obeys_from_spec() -> bool {
        true
    }

    open spec fn from_spec(bit: Bit) -> u8 {
        bit.value() as u8
    }
}

impl From<Bit> for u16 {
    fn from(bit: Bit) -> (r: u16) {
        match bit {
            Bit::On => 1,
            Bit::Off => 0,
        }
    }
}

impl vstd::std_specs::convert::FromSpecImpl<Bit> for u16 {
    open spec fn obeys_from_spec() -> bool {
        true
    }

    open spec fn from_spec(bit: Bit) -> u16 {
        bit.value() as u16
    }
}

impl From<Bit> for u32 {
    fn from(bit: Bit) -> (r: u32) {
        match bit {
            Bit::On => 1,
            Bit::Off => 0,
        }
    }
}

impl vstd::std_specs::convert::FromSpecImpl<Bit> for u32 {
    open spec fn obeys_from_spec() -> bool {
        true
    }

    open spec fn from_spec(bit: Bit) -> u32 {
        bit.value() as u32
    }
}

impl From<Bit> for u64 {
    fn from(bit: Bit) -> (r: u64) {
        match bit {
            Bit::On => 1,
            Bit::Off => 0,
        }
    }
}

impl vstd::std_specs::convert::FromSpecImpl<Bit> for u64 {
    open spec fn obeys_from_spec() -> bool {
        true
    }

    open spec fn from_spec(bit: Bit) -> u64 {
        bit.value() as u64
    }
}

impl From<Bit> for u128 {
    fn from(bit: Bit) -> (r: u128) {
        match bit {
            Bit::On => 1,
            Bit::Off => 0,
        }
    }
}

impl vstd::std_specs::convert::FromSpecImpl<Bit> for u128 {
    open spec fn obeys_from_spec() -> bool {
        true
    }

    open spec fn from_spec(bit: Bit) -> u128 {
        bit.value() as u128
    }
}

} // verus!
