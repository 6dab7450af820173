//! The decision rule of the per-cell simulation variant.
//!
//! In that design every cell runs its own task, locks itself and its
//! immediate neighbours, compares current heights, and gives each hour's
//! rain unit to whichever locked cell the rule below picks. The rule is
//! strictly local — one-neighbour lookahead — and is a distinct, simpler
//! physical model than the global-maximum redistribution pass of `algo`;
//! the two are not meant to agree. The locking and the task loop live with
//! the embedding application; the decision itself is a pure function of the
//! three heights and is verified here.

use vstd::prelude::*;

verus! {

/// Where a cell's hourly rain unit goes.
#[derive(Clone, Copy, Debug, PartialEq, Eq)]
pub enum RainFlow {
    /// The cell keeps the whole unit.
    Stay,
    /// The whole unit flows to the left neighbour.
    Left,
    /// The whole unit flows to the right neighbour.
    Right,
    /// The unit is split, half to each neighbour.
    Split,
}

/// The local rule, over the current heights (in half-units) of the left
/// neighbour (if any), the cell itself, and the right neighbour (if any):
/// with no neighbours the cell absorbs the unit; with one neighbour the
/// unit goes to it exactly when it is strictly lower; with two neighbours
/// the unit is split when both are strictly lower, goes whole to the single
/// strictly lower one, and stays when neither is lower.
pub open spec fn flow_spec(left: Option<int>, this: int, right: Option<int>) -> RainFlow {
    match (left, right) {
        (Option::None, Option::None) => RainFlow::Stay,
        (Option::Some(l), Option::None) => if l < this {
            RainFlow::Left
        } else {
            RainFlow::Stay
        },
        (Option::None, Option::Some(r)) => if this > r {
            RainFlow::Right
        } else {
            RainFlow::Stay
        },
        (Option::Some(l), Option::Some(r)) => if l < this && r < this {
            RainFlow::Split
        } else if l < this && r >= this {
            RainFlow::Left
        } else if l >= this && r < this {
            RainFlow::Right
        } else {
            RainFlow::Stay
        },
    }
}

/// The heights of the optional neighbours, as mathematical integers.
pub open spec fn opt_height(o: Option<i128>) -> Option<int> {
    match o {
        Option::None => Option::None,
        Option::Some(v) => Option::Some(v as int),
    }
}

/// Decide where a cell's hourly rain unit flows, from the current heights
/// (in half-units) of its neighbours and itself.
pub fn rain_flow(left: Option<i128>, this: i128, right: Option<i128>) -> (r: RainFlow)
    ensures
        r == flow_spec(opt_height(left), this as int, opt_height(right)),
{
    match (left, right) {
        (Option::None, Option::None) => RainFlow::Stay,
        (Option::Some(l), Option::None) => if l < this {
            RainFlow::Left
        } else {
            RainFlow::Stay
        },
        (Option::None, Option::Some(r)) => if this > r {
            RainFlow::Right
        } else {
            RainFlow::Stay
        },
        (Option::Some(l), Option::Some(r)) => if l < this && r < this {
            RainFlow::Split
        } else if l < this && r >= this {
            RainFlow::Left
        } else if l >= this && r < this {
            RainFlow::Right
        } else {
            RainFlow::Stay
        },
    }
}

impl RainFlow {
    /// How many half-units of the hour's rain unit the left neighbour, the
    /// cell itself, and the right neighbour absorb under this flow. The
    /// three parts always total exactly one full unit: the local rule never
    /// creates or destroys water.
    pub fn contributions(&self) -> (r: (i64, i64, i64))
        ensures
            r.0 + r.1 + r.2 == 2,
            *self matches RainFlow::Stay ==> r == (0i64, 2i64, 0i64),
            *self matches RainFlow::Left ==> r == (2i64, 0i64, 0i64),
            *self matches RainFlow::Right ==> r == (0i64, 0i64, 2i64),
            *self matches RainFlow::Split ==> r == (1i64, 0i64, 1i64),
    {
        match self {
            RainFlow::Stay => (0, 2, 0),
            RainFlow::Left => (2, 0, 0),
            RainFlow::Right => (0, 0, 2),
            RainFlow::Split => (1, 0, 1),
        }
    }
}

} // verus!
