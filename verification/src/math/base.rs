//! The number bases the calculator can show.

use vstd::prelude::*;

verus! {

/// A positional number base.
#[derive(Clone, Copy, Debug, PartialEq, Eq, Structural)]
pub enum NumberBase {
    Decimal,
    Binary,
    Hexadecimal,
}

impl NumberBase {
    /// How many digits the base has.
    pub open spec fn radix(self) -> nat {
        match self {
            NumberBase::Binary => 2,
            NumberBase::Decimal => 10,
            NumberBase::Hexadecimal => 16,
        }
    }

    /// The marker that goes before the integer digits: `0b`, `0x`, or
    /// nothing for decimal.
    pub open spec fn marker(self) -> Seq<char> {
        match self {
            NumberBase::Binary => seq!['0', 'b'],
            NumberBase::Decimal => Seq::empty(),
            NumberBase::Hexadecimal => seq!['0', 'x'],
        }
    }

    /// How many digits the base has.
    pub fn place_value(&self) -> (r: u32)
        ensures
            r == self.radix(),
    {
        match self {
            NumberBase::Binary => 2,
            NumberBase::Decimal => 10,
            NumberBase::Hexadecimal => 16,
        }
    }
}

} // verus!
