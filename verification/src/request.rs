//! The request-side view of the simulation: the values the serving layer
//! parses out of a request, the operational limits it must enforce, and the
//! whole computation behind the calculation endpoint. The serving layer
//! itself (HTTP, HTML, query-string parsing) lives with the embedding
//! application and hands plain values in and out.

use vstd::prelude::*;

use crate::landscape::MAX_CELLS;
use crate::landscape::MAX_HOURS;
use crate::landscape_element::heights;
use crate::model::rain_model;
use crate::model::run_height_cap;
use crate::model::within;

verus! {

/// The first form's payload: how many cells the landscape shall have.
pub struct LandscapeSize {
    pub elements: usize,
}

impl LandscapeSize {
    /// Whether the requested number of cells is within the service's limit.
    pub fn within_limit(&self) -> (r: bool)
        ensures
            r == (self.elements <= MAX_CELLS),
    {
        self.elements <= MAX_CELLS
    }
}

/// The second form's payload: the base heights and the hours of rain.
pub struct Landscape {
    pub levels: Vec<usize>,
    pub hours: usize,
}

impl Landscape {
    /// Whether the requested hour count is within the service's limit.
    pub fn hours_within_limit(&self) -> (r: bool)
        ensures
            r == (self.hours <= MAX_HOURS),
    {
        self.hours <= MAX_HOURS
    }

    /// Whether the submitted landscape is within the service's size limit.
    pub fn size_within_limit(&self) -> (r: bool)
        ensures
            r == (self.levels@.len() <= MAX_CELLS),
    {
        self.levels.len() <= MAX_CELLS
    }
}

/// The heights (in half-units) of a freshly built landscape: twice each base
/// height, no water yet.
pub open spec fn initial_heights(levels: Seq<usize>) -> Seq<int> {
    levels.map_values(|b: usize| 2 * (b as int))
}

/// The computation behind the calculation endpoint: build a landscape from
/// the requested base heights, rain on it for the requested hours, and
/// return the resulting (base height, water level in half-units) pairs, in
/// request order. Each returned water level is exactly what `rain_model`
/// assigns to that cell.
pub fn simulate(levels: Vec<usize>, hours: usize) -> (r: Vec<(usize, i128)>)
    requires
        levels@.len() <= MAX_CELLS,
        hours <= MAX_HOURS,
    ensures
        r@.len() == levels@.len(),
        forall|i: int|
            0 <= i < levels@.len() ==> #[trigger] r@[i].0 == levels@[i] && r@[i].1 == rain_model(
                initial_heights(levels@),
                hours as int,
            )[i] - 2 * levels@[i],
{
    let ghost levels0 = levels@;
    let land = crate::landscape::Landscape::new(levels);
    proof {
        assert forall|i: int| 0 <= i < levels0.len() implies heights(land@)[i] == initial_heights(
            levels0,
        )[i] by {
            assert(heights(land@)[i] == land@[i].height());
        }
        assert(heights(land@) =~= initial_heights(levels0));
        assert forall|i: int|
            0 <= i < levels0.len() implies -run_height_cap() <= #[trigger] heights(land@)[i]
            <= run_height_cap() by {
            assert(heights(land@)[i] == 2 * (levels0[i] as int));
        }
        assert(within(heights(land@), 0, land@.len() as int, run_height_cap()));
    }
    let rained = land.rain(hours);
    let ghost after = rain_model(initial_heights(levels0), hours as int);
    let pairs = rained.into_inner();
    proof {
        assert forall|i: int|
            0 <= i < levels0.len() implies #[trigger] pairs@[i].0 == levels0[i] && pairs@[i].1
            == after[i] - 2 * levels0[i] by {
            assert(heights(rained@)[i] == rained@[i].height());
        }
    }
    pairs
}

} // verus!
