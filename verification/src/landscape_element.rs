//! A single cell of the landscape: fixed terrain height plus mutable water.

use vstd::prelude::*;

verus! {

/// The sequence of current heights (in half-units) of a sequence of cells.
pub open spec fn heights(s: Seq<LandscapeElement>) -> Seq<int> {
    s.map_values(|e: LandscapeElement| e.height())
}

/// The sequence of water levels (in half-units) of a sequence of cells.
pub open spec fn waters(s: Seq<LandscapeElement>) -> Seq<int> {
    s.map_values(|e: LandscapeElement| e.water())
}

/// Between two cell sequences with the same base heights, the total water
/// moves exactly as the total height does.
pub proof fn lemma_water_sum_tracks_heights(
    s: Seq<LandscapeElement>,
    t: Seq<LandscapeElement>,
    lo: int,
    hi: int,
)
    requires
        0 <= lo <= hi,
        hi <= s.len(),
        hi <= t.len(),
        forall|j: int| lo <= j < hi ==> t[j].base() == s[j].base(),
    ensures
        crate::model::sum_range(waters(t), lo, hi) - crate::model::sum_range(waters(s), lo, hi)
            == crate::model::sum_range(heights(t), lo, hi) - crate::model::sum_range(
            heights(s),
            lo,
            hi,
        ),
    decreases hi - lo,
{
    if hi > lo {
        lemma_water_sum_tracks_heights(s, t, lo, hi - 1);
        assert(waters(t)[hi - 1] == t[hi - 1].water());
        assert(waters(s)[hi - 1] == s[hi - 1].water());
        assert(heights(t)[hi - 1] == t[hi - 1].height());
        assert(heights(s)[hi - 1] == s[hi - 1].height());
        assert(t[hi - 1].base() == s[hi - 1].base());
    }
}

/// One cell of the landscape.
///
/// `base_height` is the terrain elevation, fixed at construction and counted
/// in whole units; `water_level` is the accumulated water in half-units
/// (one hour of rain adds `2`). The water level may be driven below zero
/// while a redistribution pass is rebalancing, so it is signed.
#[derive(Clone, Copy)]
pub struct LandscapeElement {
    base_height: usize,
    water_level: i128,
}

impl LandscapeElement {
    /// Terrain elevation in whole units.
    pub closed spec fn base(self) -> int {
        self.base_height as int
    }

    /// Accumulated water in half-units.
    pub closed spec fn water(self) -> int {
        self.water_level as int
    }

    /// Current height in half-units: twice the base plus the water.
    pub open spec fn height(self) -> int {
        2 * self.base() + self.water()
    }

    /// The representation bounds of a cell: the base fits in a `usize` and
    /// the water in an `i128`.
    pub proof fn lemma_element_bounds(self)
        ensures
            0 <= self.base() <= usize::MAX,
            i128::MIN <= self.water() <= i128::MAX,
    {
    }

    pub fn new(base_height: usize) -> (r: Self)
        ensures
            r.base() == base_height,
            r.water() == 0,
    {
        Self { base_height, water_level: 0 }
    }

    /// One hour of rain: one full unit (two half-units) of water.
    pub fn rain_one_hour(&mut self)
        requires
            old(self).water() + 2 <= i128::MAX,
        ensures
            final(self).base() == old(self).base(),
            final(self).water() == old(self).water() + 2,
    {
        self.water_level = self.water_level + 2;
    }

    /// Current height in half-units.
    pub fn current_height(&self) -> (r: i128)
        requires
            i128::MIN <= self.height() <= i128::MAX,
        ensures
            r == self.height(),
    {
        (self.base_height as i128) * 2 + self.water_level
    }

    /// Raise the water level by `h` half-units.
    pub fn increase_height(&mut self, h: i128)
        requires
            i128::MIN <= old(self).water() + h <= i128::MAX,
        ensures
            final(self).base() == old(self).base(),
            final(self).water() == old(self).water() + h,
    {
        self.water_level = self.water_level + h;
    }

    /// Lower the water level by `h` half-units.
    pub fn decrease_height(&mut self, h: i128)
        requires
            i128::MIN <= old(self).water() - h <= i128::MAX,
        ensures
            final(self).base() == old(self).base(),
            final(self).water() == old(self).water() - h,
    {
        self.water_level = self.water_level - h;
    }

    /// The cell's state as a (base height, water level in half-units) pair.
    pub fn into_inner(self) -> (r: (usize, i128))
        ensures
            r.0 == self.base(),
            r.1 == self.water(),
    {
        (self.base_height, self.water_level)
    }
}

} // verus!
