//! A discrete parcel of rain, used by the per-cell simulation variant's
//! accounting.

use vstd::prelude::*;

verus! {

/// A parcel of rain: one full unit or half of one, counted in half-units
/// (full = 2, half = 1).
#[derive(Clone, Copy, Debug)]
pub struct RainElement {
    half_units: i64,
}

impl RainElement {
    /// The parcel's magnitude in half-units.
    pub closed spec fn amount(self) -> int {
        self.half_units as int
    }

    /// A full rain unit: two half-units.
    pub fn full() -> (r: Self)
        ensures
            r.amount() == 2,
    {
        RainElement { half_units: 2 }
    }

    /// Half of a parcel. Only a full parcel can be halved: the simulation
    /// accounts rain on the half-unit grid, so a half parcel splits no
    /// further.
    pub fn half(self) -> (r: Self)
        requires
            self.amount() == 2,
        ensures
            r.amount() == 1,
    {
        RainElement { half_units: self.half_units / 2 }
    }

    /// The parcel's magnitude in half-units.
    pub fn as_half_units(&self) -> (r: i64)
        ensures
            r == self.amount(),
    {
        self.half_units
    }
}

} // verus!
