//! The redistribution pass over a run of cells.
//!
//! `rearrange` works in place on the index range `[lo, hi)` of the backing
//! vector; recursive invocations pass half-open sub-ranges of the same
//! vector rather than splitting it. Its effect on the heights is exactly
//! `model::rearrange_model`.

use vstd::prelude::*;

use crate::landscape_element::heights;
use crate::landscape_element::LandscapeElement;
use crate::model::all_equal_in;
use crate::model::give_left;
use crate::model::give_right;
use crate::model::height_cap;
use crate::model::lemma_give_left_facts;
use crate::model::lemma_give_right_facts;
use crate::model::lemma_max_idx_in;
use crate::model::lemma_rearrange_props;
use crate::model::lemma_split_both_facts;
use crate::model::lemma_spread_mono;
use crate::model::lemma_spread_nonneg;
use crate::model::max_idx_in;
use crate::model::rearrange_model;
use crate::model::split_both;
use crate::model::step_model;
use crate::model::spread;
use crate::model::within;

verus! {

/// Index of the cell with the maximum current height over `[lo, hi)`, or
/// `None` on an empty range. Among cells of equal height the later one wins,
/// because the scan replaces its candidate whenever the candidate is not
/// strictly higher than the cell under inspection.
fn find_land_max_idx(land: &Vec<LandscapeElement>, lo: usize, hi: usize) -> (r: Option<usize>)
    requires
        lo <= hi <= land@.len(),
        within(heights(land@), lo as int, hi as int, height_cap()),
    ensures
        match r {
            None => lo == hi,
            Some(m) => lo < hi && m == max_idx_in(heights(land@), lo as int, hi as int),
        },
{
    if lo == hi {
        None
    } else {
        let mut best: usize = lo;
        let mut i: usize = lo + 1;
        while i < hi
            invariant
                lo <= best < i <= hi,
                hi <= land@.len(),
                within(heights(land@), lo as int, hi as int, height_cap()),
                best == max_idx_in(heights(land@), lo as int, i as int),
            decreases hi - i,
        {
            proof {
                assert(heights(land@)[i as int] == land@[i as int].height());
                assert(heights(land@)[best as int] == land@[best as int].height());
            }
            if land[i].current_height() >= land[best].current_height() {
                best = i;
            }
            i = i + 1;
        }
        Some(best)
    }
}

/// Whether every cell of the run `[lo, hi)` has the same current height as
/// the cell at `m` (the run's maximum).
fn run_all_equal(land: &Vec<LandscapeElement>, lo: usize, hi: usize, m: usize) -> (r: bool)
    requires
        lo <= m < hi <= land@.len(),
        within(heights(land@), lo as int, hi as int, height_cap()),
    ensures
        r == all_equal_in(heights(land@), lo as int, hi as int, m as int),
{
    proof {
        assert(heights(land@)[m as int] == land@[m as int].height());
    }
    let max_height = land[m].current_height();
    let mut i: usize = lo;
    while i < hi
        invariant
            lo <= i <= hi,
            lo <= m < hi <= land@.len(),
            within(heights(land@), lo as int, hi as int, height_cap()),
            max_height == heights(land@)[m as int],
            forall|j: int| lo <= j < i ==> #[trigger] heights(land@)[j] == heights(land@)[
                m as int
            ],
        decreases hi - i,
    {
        proof {
            assert(heights(land@)[i as int] == land@[i as int].height());
        }
        if land[i].current_height() != max_height {
            return false;
        }
        i = i + 1;
    }
    true
}

/// Whether the cell at `idx` has a left neighbour inside the run starting at
/// `lo`, and that neighbour's current height is strictly lower.
fn left_neighbor_is_lower(land: &Vec<LandscapeElement>, lo: usize, hi: usize, idx: usize) -> (r:
    bool)
    requires
        lo <= idx < hi <= land@.len(),
        within(heights(land@), lo as int, hi as int, height_cap()),
    ensures
        r == (idx > lo && heights(land@)[idx as int] > heights(land@)[idx as int - 1]),
{
    if idx == lo {
        false
    } else {
        proof {
            assert(heights(land@)[idx as int] == land@[idx as int].height());
            assert(heights(land@)[idx as int - 1] == land@[idx as int - 1].height());
        }
        land[idx].current_height() > land[idx - 1].current_height()
    }
}

/// Whether the cell at `idx` has a right neighbour inside the run ending at
/// `hi`, and that neighbour's current height is strictly lower.
fn right_neighbor_is_lower(land: &Vec<LandscapeElement>, lo: usize, hi: usize, idx: usize) -> (r:
    bool)
    requires
        lo <= idx < hi <= land@.len(),
        within(heights(land@), lo as int, hi as int, height_cap()),
    ensures
        r == (idx < hi - 1 && heights(land@)[idx as int] > heights(land@)[idx as int + 1]),
{
    if idx == hi - 1 {
        false
    } else {
        proof {
            assert(heights(land@)[idx as int] == land@[idx as int].height());
            assert(heights(land@)[idx as int + 1] == land@[idx as int + 1].height());
        }
        land[idx].current_height() > land[idx + 1].current_height()
    }
}

/// Raise the water of the cell at `i` by `amt` half-units.
fn cell_increase(land: &mut Vec<LandscapeElement>, i: usize, amt: i128)
    requires
        i < old(land)@.len(),
        0 <= amt <= 2,
        -height_cap() - 2 <= heights(old(land)@)[i as int] <= height_cap() + 2,
    ensures
        final(land)@.len() == old(land)@.len(),
        forall|j: int| 0 <= j < old(land)@.len() ==> final(land)@[j].base() == old(land)@[
            j
        ].base(),
        heights(final(land)@) == heights(old(land)@).update(
            i as int,
            heights(old(land)@)[i as int] + amt,
        ),
{
    proof {
        assert(heights(land@)[i as int] == land@[i as int].height());
        land@[i as int].lemma_element_bounds();
    }
    let mut cell = land[i];
    cell.increase_height(amt);
    land.set(i, cell);
    proof {
        assert(heights(land@) =~= heights(old(land)@).update(
            i as int,
            heights(old(land)@)[i as int] + amt,
        ));
    }
}

/// Lower the water of the cell at `i` by `amt` half-units.
fn cell_decrease(land: &mut Vec<LandscapeElement>, i: usize, amt: i128)
    requires
        i < old(land)@.len(),
        0 <= amt <= 2,
        -height_cap() - 2 <= heights(old(land)@)[i as int] <= height_cap() + 2,
    ensures
        final(land)@.len() == old(land)@.len(),
        forall|j: int| 0 <= j < old(land)@.len() ==> final(land)@[j].base() == old(land)@[
            j
        ].base(),
        heights(final(land)@) == heights(old(land)@).update(
            i as int,
            heights(old(land)@)[i as int] - amt,
        ),
{
    proof {
        assert(heights(land@)[i as int] == land@[i as int].height());
        land@[i as int].lemma_element_bounds();
    }
    let mut cell = land[i];
    cell.decrease_height(amt);
    land.set(i, cell);
    proof {
        assert(heights(land@) =~= heights(old(land)@).update(
            i as int,
            heights(old(land)@)[i as int] - amt,
        ));
    }
}

/// The transfer step at the run's maximum `m`, together with the recursion
/// into whichever partition received water: exactly `model::step_model`.
/// On return, both partitions are back inside the envelope that the closing
/// recursions of `rearrange` demand.
fn rearrange_step(land: &mut Vec<LandscapeElement>, lo: usize, hi: usize, m: usize)
    requires
        lo <= m < hi <= old(land)@.len(),
        hi - lo >= 2,
        within(heights(old(land)@), lo as int, hi as int, height_cap() - spread(hi - lo)),
    ensures
        final(land)@.len() == old(land)@.len(),
        forall|i: int| 0 <= i < old(land)@.len() ==> final(land)@[i].base() == old(land)@[
            i
        ].base(),
        heights(final(land)@) == step_model(heights(old(land)@), lo as int, hi as int, m as int),
        within(heights(final(land)@), lo as int, m as int, height_cap() - spread(m - lo)),
        within(heights(final(land)@), m as int, hi as int - 1, height_cap() - spread(hi - 1 - m)),
    decreases hi - lo, 0int,
{
    proof {
        lemma_spread_nonneg(hi - lo);
        lemma_spread_nonneg(hi - lo - 1);
        lemma_spread_nonneg(m - lo);
        lemma_spread_nonneg(hi - 1 - m);
        lemma_spread_mono(m - lo, hi - lo - 1);
        lemma_spread_mono(hi - 1 - m, hi - lo - 1);
        assert(within(heights(land@), lo as int, hi as int, height_cap()));
    }
    let ghost s0 = heights(land@);
    let ghost cap_b = height_cap() - spread(hi - lo);
    let has_left_neighbor = m != lo;
    let has_right_neighbor = m != hi - 1;

    match (has_left_neighbor, has_right_neighbor) {
        (true, false) => {
            if left_neighbor_is_lower(land, lo, hi, m) {
                cell_increase(land, m - 1, 2);
                cell_decrease(land, m, 2);
                proof {
                    assert(heights(land@) =~= give_left(s0, m as int));
                    lemma_give_left_facts(s0, lo as int, hi as int, m as int, cap_b);
                    assert(within(give_left(s0, m as int), lo as int, hi as int, cap_b + 1));
                    assert(within(give_left(s0, m as int), lo as int, m as int, cap_b + 1));
                    assert(within(
                        give_left(s0, m as int),
                        lo as int,
                        m as int,
                        height_cap() - spread(m - lo),
                    ));
                }
                rearrange(land, lo, m);
                proof {
                    lemma_rearrange_props(give_left(s0, m as int), lo as int, m as int, cap_b + 1);
                    assert(within(
                        heights(land@),
                        lo as int,
                        m as int,
                        cap_b + 1 + spread(m - lo),
                    ));
                    assert(within(heights(land@), m as int, hi as int - 1, cap_b + 1));
                }
            }
        },
        (false, true) => {
            if right_neighbor_is_lower(land, lo, hi, m) {
                cell_increase(land, m + 1, 2);
                cell_decrease(land, m, 2);
                proof {
                    assert(heights(land@) =~= give_right(s0, m as int));
                    lemma_give_right_facts(s0, lo as int, hi as int, m as int, cap_b);
                    assert(within(give_right(s0, m as int), lo as int, hi as int, cap_b + 1));
                    assert(within(give_right(s0, m as int), m as int, hi as int - 1, cap_b + 1));
                    assert(within(
                        give_right(s0, m as int),
                        m as int,
                        hi as int - 1,
                        height_cap() - spread(hi - 1 - m),
                    ));
                }
                let hi_arm = hi - 1;
                rearrange(land, m, hi_arm);
                proof {
                    lemma_rearrange_props(
                        give_right(s0, m as int),
                        m as int,
                        hi as int - 1,
                        cap_b + 1,
                    );
                    assert(within(
                        heights(land@),
                        m as int,
                        hi as int - 1,
                        cap_b + 1 + spread(hi - 1 - m),
                    ));
                    assert(within(heights(land@), lo as int, m as int, cap_b + 1));
                }
            }
        },
        (true, true) => {
            let l_lower = left_neighbor_is_lower(land, lo, hi, m);
            let r_lower = right_neighbor_is_lower(land, lo, hi, m);
            match (l_lower, r_lower) {
                (true, true) => {
                    cell_increase(land, m - 1, 1);
                    cell_increase(land, m + 1, 1);
                    cell_decrease(land, m, 2);
                    proof {
                        assert(heights(land@) =~= split_both(s0, m as int));
                        lemma_split_both_facts(s0, lo as int, hi as int, m as int, cap_b);
                        assert(within(split_both(s0, m as int), lo as int, hi as int, cap_b + 1));
                        assert(within(split_both(s0, m as int), lo as int, m as int, cap_b + 1));
                        assert(within(
                            split_both(s0, m as int),
                            lo as int,
                            m as int,
                            height_cap() - spread(m - lo),
                        ));
                    }
                    rearrange(land, lo, m);
                    proof {
                        lemma_rearrange_props(
                            split_both(s0, m as int),
                            lo as int,
                            m as int,
                            cap_b + 1,
                        );
                        assert(within(
                            heights(land@),
                            lo as int,
                            m as int,
                            cap_b + 1 + spread(m - lo),
                        ));
                        assert(within(heights(land@), m as int, hi as int - 1, cap_b + 1));
                        assert(within(
                            heights(land@),
                            m as int,
                            hi as int - 1,
                            height_cap() - spread(hi - 1 - m),
                        ));
                    }
                    let hi_arm = hi - 1;
                    rearrange(land, m, hi_arm);
                    proof {
                        let t1 = rearrange_model(split_both(s0, m as int), lo as int, m as int);
                        assert(within(t1, m as int, hi as int - 1, cap_b + 1));
                        lemma_rearrange_props(t1, m as int, hi as int - 1, cap_b + 1);
                        assert(within(
                            heights(land@),
                            m as int,
                            hi as int - 1,
                            cap_b + 1 + spread(hi - 1 - m),
                        ));
                        assert(within(
                            heights(land@),
                            lo as int,
                            m as int,
                            cap_b + 1 + spread(m - lo),
                        ));
                    }
                },
                (false, true) => {
                    cell_increase(land, m + 1, 2);
                    cell_decrease(land, m, 2);
                    proof {
                        assert(heights(land@) =~= give_right(s0, m as int));
                        lemma_give_right_facts(s0, lo as int, hi as int, m as int, cap_b);
                        assert(within(give_right(s0, m as int), lo as int, hi as int, cap_b + 1));
                        assert(within(
                            give_right(s0, m as int),
                            m as int,
                            hi as int - 1,
                            cap_b + 1,
                        ));
                        assert(within(
                            give_right(s0, m as int),
                            m as int,
                            hi as int - 1,
                            height_cap() - spread(hi - 1 - m),
                        ));
                    }
                    let hi_arm = hi - 1;
                    rearrange(land, m, hi_arm);
                    proof {
                        lemma_rearrange_props(
                            give_right(s0, m as int),
                            m as int,
                            hi as int - 1,
                            cap_b + 1,
                        );
                        assert(within(
                            heights(land@),
                            m as int,
                            hi as int - 1,
                            cap_b + 1 + spread(hi - 1 - m),
                        ));
                        assert(within(heights(land@), lo as int, m as int, cap_b + 1));
                    }
                },
                (true, false) => {
                    cell_increase(land, m - 1, 2);
                    cell_decrease(land, m, 2);
                    proof {
                        assert(heights(land@) =~= give_left(s0, m as int));
                        lemma_give_left_facts(s0, lo as int, hi as int, m as int, cap_b);
                        assert(within(give_left(s0, m as int), lo as int, hi as int, cap_b + 1));
                        assert(within(give_left(s0, m as int), lo as int, m as int, cap_b + 1));
                        assert(within(
                            give_left(s0, m as int),
                            lo as int,
                            m as int,
                            height_cap() - spread(m - lo),
                        ));
                    }
                    rearrange(land, lo, m);
                    proof {
                        lemma_rearrange_props(
                            give_left(s0, m as int),
                            lo as int,
                            m as int,
                            cap_b + 1,
                        );
                        assert(within(
                            heights(land@),
                            lo as int,
                            m as int,
                            cap_b + 1 + spread(m - lo),
                        ));
                        assert(within(heights(land@), m as int, hi as int - 1, cap_b + 1));
                    }
                },
                (false, false) => {},
            }
        },
        (false, false) => {},
    }
    proof {
        assert(within(heights(land@), lo as int, m as int, height_cap() - spread(m - lo)));
        assert(within(
            heights(land@),
            m as int,
            hi as int - 1,
            height_cap() - spread(hi - 1 - m),
        ));
    }
}

/// One redistribution pass over the run `[lo, hi)` of `land`, in place.
///
/// The pass finds the run's highest cell (the last one among equals), leaves
/// an already level run untouched, and otherwise moves one unit of water off
/// the maximum and recurses into the partitions left and right of it; the
/// right recursion stops one short of the run's final cell, exactly as
/// `rearrange_model` states. A run of fewer than two cells is left as it is.
/// Heights must leave `spread(hi - lo)` half-units of headroom inside the
/// admitted envelope, which every run of at most 100 cells within the
/// documented operating range has.
pub fn rearrange(land: &mut Vec<LandscapeElement>, lo: usize, hi: usize)
    requires
        lo <= hi <= old(land)@.len(),
        within(heights(old(land)@), lo as int, hi as int, height_cap() - spread(hi - lo)),
    ensures
        final(land)@.len() == old(land)@.len(),
        forall|i: int| 0 <= i < old(land)@.len() ==> final(land)@[i].base() == old(land)@[
            i
        ].base(),
        heights(final(land)@) == rearrange_model(heights(old(land)@), lo as int, hi as int),
    decreases hi - lo, 1int,
{
    if hi - lo < 2 {
        return ;
    }
    proof {
        lemma_spread_nonneg(hi - lo);
        lemma_spread_nonneg(hi - lo - 1);
        assert(within(heights(land@), lo as int, hi as int, height_cap()));
    }
    let ghost s0 = heights(land@);
    let max_opt = find_land_max_idx(land, lo, hi);
    let m = match max_opt {
        None => {
            return ;
        },
        Some(m) => m,
    };
    proof {
        lemma_max_idx_in(s0, lo as int, hi as int);
        lemma_spread_nonneg(m - lo);
        lemma_spread_nonneg(hi - 1 - m);
        lemma_spread_mono(m - lo, hi - lo - 1);
        lemma_spread_mono(hi - 1 - m, hi - lo - 1);
    }
    if run_all_equal(land, lo, hi, m) {
        return ;
    }
    rearrange_step(land, lo, hi, m);
    let ghost s1 = step_model(s0, lo as int, hi as int, m as int);
    rearrange(land, lo, m);
    proof {
        lemma_rearrange_props(s1, lo as int, m as int, 0);
        assert(within(
            heights(land@),
            m as int,
            hi as int - 1,
            height_cap() - spread(hi - 1 - m),
        ));
    }
    let hi_tail = hi - 1;
    rearrange(land, m, hi_tail);
    proof {
        assert(heights(land@) == rearrange_model(s0, lo as int, hi as int));
    }
}

} // verus!
