//! What the host configures: how many fractional digits to show at most, and
//! the base to start in.

use crate::math::base::NumberBase;
use vstd::prelude::*;

verus! {

/// The settings the calculator reads and never writes.
#[derive(Clone, Copy, Debug, PartialEq, Eq)]
pub struct Config {
    /// The most fractional digits a rendering may hold.
    pub max_fractional_places: u32,
    /// The base a new session starts in.
    pub base: NumberBase,
}

impl Default for Config {
    fn default() -> (r: Self)
        ensures
            r.max_fractional_places == 128,
            r.base == NumberBase::Decimal,
    {
        Self { max_fractional_places: 128, base: NumberBase::Decimal }
    }
}

} // verus!
