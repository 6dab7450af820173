//! The landscape: an ordered sequence of cells, and the hour-driven run.

use vstd::prelude::*;

use crate::algo::rearrange;
use crate::landscape_element::heights;
use crate::landscape_element::lemma_water_sum_tracks_heights;
use crate::landscape_element::waters;
use crate::landscape_element::LandscapeElement;
use crate::model::add_rain;
use crate::model::height_cap;
use crate::model::hour_model;
use crate::model::lemma_rain_bounds;
use crate::model::lemma_rain_conservation;
use crate::model::lemma_run_envelope;
use crate::model::rain_model;
use crate::model::run_height_cap;
use crate::model::spread;
use crate::model::sum_range;
use crate::model::within;

verus! {

/// The most cells a run of rain admits; the HTTP layer enforces the same
/// bound before building a landscape.
pub const MAX_CELLS: usize = 100;

/// The most hours a run of rain admits; the HTTP layer enforces the same
/// bound before starting a run.
pub const MAX_HOURS: usize = 1000;

/// An ordered sequence of terrain cells. Position in the sequence is the
/// spatial adjacency relation: cell `i` borders exactly cells `i - 1` and
/// `i + 1`, with no wraparound.
pub struct Landscape {
    elements: Vec<LandscapeElement>,
}

impl View for Landscape {
    type V = Seq<LandscapeElement>;

    closed spec fn view(&self) -> Seq<LandscapeElement> {
        self.elements@
    }
}

/// One hour of rain on every cell of the sequence, in place: each current
/// height rises by exactly one unit.
fn rain_all(cells: &mut Vec<LandscapeElement>)
    requires
        within(heights(old(cells)@), 0, old(cells)@.len() as int, height_cap()),
    ensures
        final(cells)@.len() == old(cells)@.len(),
        forall|i: int| 0 <= i < old(cells)@.len() ==> final(cells)@[i].base() == old(cells)@[
            i
        ].base(),
        heights(final(cells)@) == add_rain(heights(old(cells)@)),
{
    let ghost s0 = heights(cells@);
    let n = cells.len();
    let mut j: usize = 0;
    while j < n
        invariant
            j <= n == cells@.len(),
            cells@.len() == old(cells)@.len(),
            s0 == heights(old(cells)@),
            within(s0, 0, n as int, height_cap()),
            forall|i: int|
                0 <= i < j ==> ((#[trigger] cells@[i]).base() == old(cells)@[i].base() && cells@[
                    i
                ].water() == old(cells)@[i].water() + 2),
            forall|i: int| j <= i < n ==> cells@[i] == old(cells)@[i],
        decreases n - j,
    {
        proof {
            assert(heights(cells@)[j as int] == cells@[j as int].height());
            assert(s0[j as int] == old(cells)@[j as int].height());
            cells@[j as int].lemma_element_bounds();
        }
        let ghost before = cells@;
        let mut cell = cells[j];
        cell.rain_one_hour();
        cells.set(j, cell);
        proof {
            assert forall|i: int|
                0 <= i < j + 1 implies ((#[trigger] cells@[i]).base() == old(cells)@[i].base()
                    && cells@[i].water() == old(cells)@[i].water() + 2) by {
                if i < j {
                    assert(cells@[i] == before[i]);
                } else {
                    assert(cells@[i] == cell);
                    assert(before[j as int] == old(cells)@[j as int]);
                }
            }
        }
        j = j + 1;
    }
    proof {
        assert forall|i: int| 0 <= i < n implies heights(cells@)[i] == s0[i] + 2 by {
            assert(heights(cells@)[i] == cells@[i].height());
            assert(cells@[i].base() == old(cells)@[i].base());
            assert(s0[i] == old(cells)@[i].height());
        }
        assert(heights(cells@) =~= add_rain(s0));
        assert forall|i: int| 0 <= i < n implies cells@[i].base() == old(cells)@[i].base() by {
            assert(cells@[i].water() == old(cells)@[i].water() + 2);
        }
    }
}

impl Landscape {
    /// Build one cell per input base height, each with water level zero.
    pub fn new(elements: Vec<usize>) -> (r: Self)
        ensures
            r@.len() == elements@.len(),
            forall|i: int|
                0 <= i < elements@.len() ==> r@[i].base() == elements@[i] && r@[i].water() == 0,
    {
        let mut cells: Vec<LandscapeElement> = Vec::new();
        let mut i: usize = 0;
        let n = elements.len();
        while i < n
            invariant
                i <= n == elements@.len(),
                cells@.len() == i,
                forall|j: int|
                    0 <= j < i ==> cells@[j].base() == elements@[j] && cells@[j].water() == 0,
            decreases n - i,
        {
            cells.push(LandscapeElement::new(elements[i]));
            i = i + 1;
        }
        Landscape { elements: cells }
    }

    /// Let it rain for `hours` hours. Each hour, every cell first gains one
    /// full unit of rain, then one redistribution pass runs over the whole
    /// sequence. The resulting heights are exactly `rain_model` of the input
    /// heights, and the total water has grown by exactly one rain unit (two
    /// half-units) per cell per hour: rain is additive and redistribution
    /// conserves water.
    pub fn rain(self, hours: usize) -> (r: Self)
        requires
            self@.len() <= MAX_CELLS,
            hours <= MAX_HOURS,
            within(heights(self@), 0, self@.len() as int, run_height_cap()),
        ensures
            r@.len() == self@.len(),
            forall|i: int| 0 <= i < self@.len() ==> r@[i].base() == self@[i].base(),
            heights(r@) == rain_model(heights(self@), hours as int),
            sum_range(waters(r@), 0, self@.len() as int) == sum_range(
                waters(self@),
                0,
                self@.len() as int,
            ) + 2 * self@.len() * hours,
    {
        let ghost init = heights(self@);
        let ghost cells0 = self@;
        let mut land = self;
        let mut k: usize = 0;
        while k < hours
            invariant
                k <= hours <= MAX_HOURS,
                land@.len() == cells0.len() <= MAX_CELLS,
                init == heights(cells0),
                within(init, 0, cells0.len() as int, run_height_cap()),
                forall|i: int| 0 <= i < cells0.len() ==> land@[i].base() == cells0[i].base(),
                heights(land@) == rain_model(init, k as int),
            decreases hours - k,
        {
            let ghost prev = heights(land@);
            let ghost n = cells0.len() as int;
            proof {
                assert(init.len() == cells0.len());
                crate::model::lemma_spread_nonneg(n);
                lemma_rain_bounds(init, k as int, run_height_cap());
                lemma_run_envelope(n, k as int);
                assert(within(prev, 0, n, run_height_cap() + (k as int) * (2 + spread(n))));
                assert(within(prev, 0, n, height_cap()));
            }
            rain_all(&mut land.elements);
            proof {
                assert(within(heights(land@), 0, n, height_cap() - spread(n)));
            }
            let len = land.elements.len();
            rearrange(&mut land.elements, 0, len);
            proof {
                assert(heights(land@) == hour_model(prev));
                assert(heights(land@) == rain_model(init, k as int + 1));
            }
            k = k + 1;
        }
        proof {
            lemma_rain_conservation(init, hours as int);
            lemma_water_sum_tracks_heights(cells0, land@, 0, cells0.len() as int);
        }
        land
    }

    /// Consume the landscape into its final per-cell state, in input order:
    /// (base height, water level in half-units) pairs.
    pub fn into_inner(self) -> (r: Vec<(usize, i128)>)
        ensures
            r@.len() == self@.len(),
            forall|i: int|
                0 <= i < self@.len() ==> r@[i].0 == self@[i].base() && r@[i].1 == self@[i].water(),
    {
        let mut out: Vec<(usize, i128)> = Vec::new();
        let mut i: usize = 0;
        let n = self.elements.len();
        while i < n
            invariant
                i <= n == self@.len(),
                out@.len() == i,
                forall|j: int|
                    0 <= j < i ==> out@[j].0 == self@[j].base() && out@[j].1 == self@[j].water(),
            decreases n - i,
        {
            let pair = self.elements[i].into_inner();
            out.push(pair);
            i = i + 1;
        }
        out
    }
}

} // verus!
