//! Mathematical model of the simulation, over sequences of current heights.
//!
//! Every spec function here works on a `Seq<int>` of cell heights in
//! half-units. `rearrange_model` is the exact meaning of one redistribution
//! pass over the index range `[lo, hi)`, and `rain_model` of a whole run;
//! the executable code ensures that it computes precisely these functions.

use vstd::prelude::*;

verus! {

/// Height envelope (in half-units) within which the executable code admits
/// cells. A redistribution pass over `n` cells can move a height by at most
/// `spread(n)` half-units, so the envelope leaves that much headroom inside
/// the `i128` range; the documented operating range of the simulation
/// (at most 100 cells, at most 1000 hours of rain) fits with vast slack.
pub open spec fn height_cap() -> int {
    0x1000000000000000000000000000000
}

/// How far (in half-units) a single redistribution pass over a run of `n`
/// cells can move any height, in the worst case: a single transfer moves a
/// height by at most 1, and the pass recurses at most twice into each of the
/// two strictly smaller partitions.
pub open spec fn spread(n: int) -> int
    decreases n,
{
    if n < 2 {
        0
    } else {
        2 * spread(n - 1) + 1
    }
}

/// All heights of `s` over `[lo, hi)` lie within `[-b, b]`.
pub open spec fn within(s: Seq<int>, lo: int, hi: int, b: int) -> bool {
    forall|i: int| lo <= i < hi ==> -b <= #[trigger] s[i] <= b
}

/// Index of the maximum height over `[lo, hi)`, the last one among equals:
/// the scan keeps its candidate only while it is strictly greater than the
/// next element, so a later cell of equal height takes over.
pub open spec fn max_idx_in(s: Seq<int>, lo: int, hi: int) -> int
    decreases hi - lo,
{
    if hi - lo <= 1 {
        lo
    } else {
        let r = max_idx_in(s, lo, hi - 1);
        if s[hi - 1] >= s[r] {
            hi - 1
        } else {
            r
        }
    }
}

/// Every height over `[lo, hi)` equals the height at `m`.
pub open spec fn all_equal_in(s: Seq<int>, lo: int, hi: int, m: int) -> bool {
    forall|i: int| lo <= i < hi ==> #[trigger] s[i] == s[m]
}

/// Move one full unit (2 half-units) from the maximum at `m` to its left
/// neighbour.
pub open spec fn give_left(s: Seq<int>, m: int) -> Seq<int> {
    s.update(m - 1, s[m - 1] + 2).update(m, s[m] - 2)
}

/// Move one full unit from the maximum at `m` to its right neighbour.
pub open spec fn give_right(s: Seq<int>, m: int) -> Seq<int> {
    s.update(m + 1, s[m + 1] + 2).update(m, s[m] - 2)
}

/// Split one full unit from the maximum at `m` into half a unit for each
/// neighbour.
pub open spec fn split_both(s: Seq<int>, m: int) -> Seq<int> {
    s.update(m - 1, s[m - 1] + 1).update(m + 1, s[m + 1] + 1).update(m, s[m] - 2)
}

/// One redistribution pass over the run `[lo, hi)`.
///
/// A run of fewer than two cells is left as it is. Otherwise the pass finds
/// the maximum (last among equals), returns unchanged if the whole run is at
/// that height, and otherwise moves one unit of water from the maximum to
/// whichever existing neighbours are strictly lower, then recurses into the
/// partition left of the maximum, `[lo, m)`, and into `[m, hi - 1)` on the
/// right. The right recursion deliberately stops one short of `hi`: a pass
/// never re-enters the run's final cell. This boundary asymmetry is part of
/// the algorithm's definition, pinned by a regression test.
pub open spec fn rearrange_model(s: Seq<int>, lo: int, hi: int) -> Seq<int>
    decreases hi - lo, 1int,
{
    if !(0 <= lo && lo <= hi && hi <= s.len()) || hi - lo < 2 {
        s
    } else {
        let m0 = max_idx_in(s, lo, hi);
        let m = if lo <= m0 && m0 < hi {
            m0
        } else {
            lo
        };
        if all_equal_in(s, lo, hi, m) {
            s
        } else {
            let s1 = step_model(s, lo, hi, m);
            rearrange_model(rearrange_model(s1, lo, m), m, hi - 1)
        }
    }
}

/// The single redistribution step at the maximum `m` of the run `[lo, hi)`:
/// one unit of water moves to whichever existing neighbours are strictly
/// lower (split in half when both are), and the pass recurses once into the
/// partition on the side that received water.
pub open spec fn step_model(s: Seq<int>, lo: int, hi: int, m: int) -> Seq<int>
    decreases hi - lo, 0int,
{
    if !(0 <= lo <= m < hi && hi <= s.len()) {
        s
    } else {
        let has_l = m != lo;
        let has_r = m != hi - 1;
        let l_low = has_l && s[m] > s[m - 1];
        let r_low = has_r && s[m] > s[m + 1];
        if has_l && !has_r {
            if l_low {
                rearrange_model(give_left(s, m), lo, m)
            } else {
                s
            }
        } else if !has_l && has_r {
            if r_low {
                rearrange_model(give_right(s, m), m, hi - 1)
            } else {
                s
            }
        } else if has_l && has_r {
            if l_low && r_low {
                rearrange_model(rearrange_model(split_both(s, m), lo, m), m, hi - 1)
            } else if r_low {
                rearrange_model(give_right(s, m), m, hi - 1)
            } else if l_low {
                rearrange_model(give_left(s, m), lo, m)
            } else {
                s
            }
        } else {
            s
        }
    }
}

/// One hour of rain on every cell: each height rises by one full unit.
pub open spec fn add_rain(s: Seq<int>) -> Seq<int> {
    s.map_values(|h: int| h + 2)
}

/// One simulated hour: rain on every cell, then one redistribution pass over
/// the whole sequence.
pub open spec fn hour_model(s: Seq<int>) -> Seq<int> {
    rearrange_model(add_rain(s), 0, s.len() as int)
}

/// A whole run: `hours` repetitions of `hour_model`.
pub open spec fn rain_model(s: Seq<int>, hours: int) -> Seq<int>
    decreases hours,
{
    if hours <= 0 {
        s
    } else {
        hour_model(rain_model(s, hours - 1))
    }
}

/// Sum of the heights of `s` over `[lo, hi)`.
pub open spec fn sum_range(s: Seq<int>, lo: int, hi: int) -> int
    decreases hi - lo,
{
    if hi <= lo {
        0
    } else {
        sum_range(s, lo, hi - 1) + s[hi - 1]
    }
}

/// `t` agrees with `s` everywhere outside `[lo, hi)`.
pub open spec fn agrees_outside(t: Seq<int>, s: Seq<int>, lo: int, hi: int) -> bool {
    forall|j: int| 0 <= j < s.len() && !(lo <= j < hi) ==> #[trigger] t[j] == s[j]
}

pub proof fn lemma_spread_nonneg(n: int)
    ensures
        spread(n) >= 0,
    decreases n,
{
    if n >= 2 {
        lemma_spread_nonneg(n - 1);
    }
}

pub proof fn lemma_spread_mono(a: int, c: int)
    requires
        a <= c,
    ensures
        spread(a) <= spread(c),
    decreases c,
{
    if c >= 2 && a < c {
        lemma_spread_mono(a, c - 1);
        lemma_spread_nonneg(c - 1);
    }
}

/// The scan result is inside the range and is a maximum of the range.
pub proof fn lemma_max_idx_in(s: Seq<int>, lo: int, hi: int)
    requires
        lo < hi,
    ensures
        lo <= max_idx_in(s, lo, hi) < hi,
        forall|i: int| lo <= i < hi ==> #[trigger] s[i] <= s[max_idx_in(s, lo, hi)],
    decreases hi - lo,
{
    if hi - lo > 1 {
        lemma_max_idx_in(s, lo, hi - 1);
    }
}

/// Two sequences that agree pointwise on `[lo, hi)` have the same sum there.
proof fn lemma_sum_congruent(s: Seq<int>, t: Seq<int>, lo: int, hi: int)
    requires
        forall|j: int| lo <= j < hi ==> #[trigger] t[j] == s[j],
    ensures
        sum_range(t, lo, hi) == sum_range(s, lo, hi),
    decreases hi - lo,
{
    if hi > lo {
        lemma_sum_congruent(s, t, lo, hi - 1);
    }
}

/// A range sum splits at any point of the range.
proof fn lemma_sum_split(s: Seq<int>, lo: int, mid: int, hi: int)
    requires
        lo <= mid <= hi,
    ensures
        sum_range(s, lo, hi) == sum_range(s, lo, mid) + sum_range(s, mid, hi),
    decreases hi - mid,
{
    if hi > mid {
        lemma_sum_split(s, lo, mid, hi - 1);
    }
}

/// Updating one cell inside the range moves the range sum by the difference.
proof fn lemma_sum_update(s: Seq<int>, lo: int, hi: int, j: int, v: int)
    requires
        0 <= lo <= j < hi,
        hi <= s.len(),
    ensures
        sum_range(s.update(j, v), lo, hi) == sum_range(s, lo, hi) - s[j] + v,
    decreases hi - lo,
{
    let t = s.update(j, v);
    if j == hi - 1 {
        assert forall|i: int| lo <= i < hi - 1 implies #[trigger] t[i] == s[i] by {}
        lemma_sum_congruent(s, t, lo, hi - 1);
    } else {
        lemma_sum_update(s, lo, hi - 1, j, v);
    }
}

/// A full-unit transfer to the left neighbour keeps the length, the cells
/// outside the run, and the run's sum; heights move by at most one half-unit
/// beyond the envelope.
pub(crate) proof fn lemma_give_left_facts(s: Seq<int>, lo: int, hi: int, m: int, b: int)
    requires
        0 <= lo < m < hi <= s.len(),
        s[m] > s[m - 1],
    ensures
        give_left(s, m).len() == s.len(),
        agrees_outside(give_left(s, m), s, lo, hi),
        sum_range(give_left(s, m), lo, hi) == sum_range(s, lo, hi),
        within(s, lo, hi, b) ==> within(give_left(s, m), lo, hi, b + 1),
{
    let a1 = s.update(m - 1, s[m - 1] + 2);
    lemma_sum_update(s, lo, hi, m - 1, s[m - 1] + 2);
    lemma_sum_update(a1, lo, hi, m, s[m] - 2);
}

/// Symmetric to `lemma_give_left_facts`, for the right neighbour.
pub(crate) proof fn lemma_give_right_facts(s: Seq<int>, lo: int, hi: int, m: int, b: int)
    requires
        0 <= lo <= m,
        m + 1 < hi <= s.len(),
        s[m] > s[m + 1],
    ensures
        give_right(s, m).len() == s.len(),
        agrees_outside(give_right(s, m), s, lo, hi),
        sum_range(give_right(s, m), lo, hi) == sum_range(s, lo, hi),
        within(s, lo, hi, b) ==> within(give_right(s, m), lo, hi, b + 1),
{
    let a1 = s.update(m + 1, s[m + 1] + 2);
    lemma_sum_update(s, lo, hi, m + 1, s[m + 1] + 2);
    lemma_sum_update(a1, lo, hi, m, s[m] - 2);
}

/// A split of one unit between both neighbours, with the same guarantees.
pub(crate) proof fn lemma_split_both_facts(s: Seq<int>, lo: int, hi: int, m: int, b: int)
    requires
        0 <= lo < m,
        m + 1 < hi <= s.len(),
        s[m] > s[m - 1],
        s[m] > s[m + 1],
    ensures
        split_both(s, m).len() == s.len(),
        agrees_outside(split_both(s, m), s, lo, hi),
        sum_range(split_both(s, m), lo, hi) == sum_range(s, lo, hi),
        within(s, lo, hi, b) ==> within(split_both(s, m), lo, hi, b + 1),
{
    let a1 = s.update(m - 1, s[m - 1] + 1);
    let a2 = a1.update(m + 1, s[m + 1] + 1);
    lemma_sum_update(s, lo, hi, m - 1, s[m - 1] + 1);
    lemma_sum_update(a1, lo, hi, m + 1, s[m + 1] + 1);
    lemma_sum_update(a2, lo, hi, m, s[m] - 2);
}

/// What one redistribution pass guarantees: the length is kept, nothing
/// outside `[lo, hi)` moves, the sum of the run's heights is conserved —
/// redistribution only moves water, it never creates or destroys it — and
/// heights stay within the envelope widened by `spread(hi - lo)`.
#[verifier::rlimit(100)]
pub proof fn lemma_rearrange_props(s: Seq<int>, lo: int, hi: int, b: int)
    ensures
        rearrange_model(s, lo, hi).len() == s.len(),
        agrees_outside(rearrange_model(s, lo, hi), s, lo, hi),
        sum_range(rearrange_model(s, lo, hi), lo, hi) == sum_range(s, lo, hi),
        within(s, lo, hi, b) ==> within(rearrange_model(s, lo, hi), lo, hi, b + spread(hi - lo)),
    decreases hi - lo, 1int,
{
    lemma_spread_nonneg(hi - lo);
    if !(0 <= lo && lo <= hi && hi <= s.len()) || hi - lo < 2 {
        // the pass is the identity here
    } else {
        lemma_max_idx_in(s, lo, hi);
        let m = max_idx_in(s, lo, hi);
        if all_equal_in(s, lo, hi, m) {
            // already at equilibrium: the pass is the identity
        } else {
            let n = hi - lo;
            lemma_spread_nonneg(n - 1);
            lemma_spread_nonneg(m - lo);
            lemma_spread_nonneg(hi - 1 - m);
            lemma_spread_mono(m - lo, n - 1);
            lemma_spread_mono(hi - 1 - m, n - 1);
            let has_l = m != lo;
            let has_r = m != hi - 1;
            let l_low = has_l && s[m] > s[m - 1];
            let r_low = has_r && s[m] > s[m + 1];
            let take_left = (has_l && !has_r && l_low) || (has_l && has_r && l_low && !r_low);
            let take_right = (!has_l && has_r && r_low) || (has_l && has_r && !l_low && r_low);
            let take_both = has_l && has_r && l_low && r_low;
            let sm = step_model(s, lo, hi, m);
            assert(rearrange_model(s, lo, hi) == rearrange_model(
                rearrange_model(sm, lo, m),
                m,
                hi - 1,
            ));
            if take_left {
                assert(sm == rearrange_model(give_left(s, m), lo, m));
            } else if take_right {
                assert(sm == rearrange_model(give_right(s, m), m, hi - 1));
            } else if take_both {
                assert(sm == rearrange_model(rearrange_model(split_both(s, m), lo, m), m, hi - 1));
            } else {
                assert(sm == s);
            }
            if take_left {
                let sp = give_left(s, m);
                lemma_give_left_facts(s, lo, hi, m, b);
                lemma_sub_call(sp, lo, hi, lo, m, b + 1);
                let s1 = rearrange_model(sp, lo, m);
                lemma_two_tails(s1, lo, hi, m, b + 1 + spread(m - lo), b + 1);
                if within(s, lo, hi, b) {
                    let t = rearrange_model(rearrange_model(s1, lo, m), m, hi - 1);
                    assert(within(sp, lo, hi, b + 1));
                    assert(within(sp, lo, m, b + 1));
                    assert(within(s1, lo, m, b + 1 + spread(m - lo)));
                    assert(within(s1, m, hi, b + 1));
                    assert(within(t, lo, m, b + 1 + spread(m - lo) + spread(m - lo)));
                    assert(within(t, m, hi, b + 1 + spread(hi - 1 - m)));
                    assert(within(t, lo, hi, b + spread(hi - lo)));
                }
            } else if take_right {
                let sp = give_right(s, m);
                lemma_give_right_facts(s, lo, hi, m, b);
                lemma_sub_call(sp, lo, hi, m, hi - 1, b + 1);
                let s1 = rearrange_model(sp, m, hi - 1);
                lemma_two_tails(s1, lo, hi, m, b + 1, b + 1 + spread(hi - 1 - m));
                if within(s, lo, hi, b) {
                    let t = rearrange_model(rearrange_model(s1, lo, m), m, hi - 1);
                    assert(within(sp, lo, hi, b + 1));
                    assert(within(sp, m, hi - 1, b + 1));
                    assert(within(s1, m, hi - 1, b + 1 + spread(hi - 1 - m)));
                    assert(within(s1, lo, m, b + 1));
                    assert(within(s1, m, hi, b + 1 + spread(hi - 1 - m)));
                    assert(within(t, lo, m, b + 1 + spread(m - lo)));
                    assert(within(t, m, hi, b + 1 + spread(hi - 1 - m) + spread(hi - 1 - m)));
                    assert(within(t, lo, hi, b + spread(hi - lo)));
                }
            } else if take_both {
                let sp = split_both(s, m);
                lemma_split_both_facts(s, lo, hi, m, b);
                lemma_two_tails(sp, lo, hi, m, b + 1, b + 1);
                let s1 = rearrange_model(rearrange_model(sp, lo, m), m, hi - 1);
                lemma_two_tails(s1, lo, hi, m, b + 1 + spread(m - lo), b + 1 + spread(hi - 1 - m));
                if within(s, lo, hi, b) {
                    let t = rearrange_model(rearrange_model(s1, lo, m), m, hi - 1);
                    assert(within(sp, lo, hi, b + 1));
                    assert(within(sp, lo, m, b + 1));
                    assert(within(sp, m, hi, b + 1));
                    assert(within(s1, lo, m, b + 1 + spread(m - lo)));
                    assert(within(s1, m, hi, b + 1 + spread(hi - 1 - m)));
                    assert(within(t, lo, m, b + 1 + spread(m - lo) + spread(m - lo)));
                    assert(within(t, m, hi, b + 1 + spread(hi - 1 - m) + spread(hi - 1 - m)));
                    assert(within(t, lo, hi, b + spread(hi - lo)));
                }
            } else {
                lemma_two_tails(s, lo, hi, m, b, b);
                if within(s, lo, hi, b) {
                    let t = rearrange_model(rearrange_model(s, lo, m), m, hi - 1);
                    assert(within(s, lo, m, b));
                    assert(within(s, m, hi, b));
                    assert(within(t, lo, m, b + spread(m - lo)));
                    assert(within(t, m, hi, b + spread(hi - 1 - m)));
                    assert(within(t, lo, hi, b + spread(hi - lo)));
                }
            }
        }
    }
}

/// One recursive pass over a sub-range `[lo2, hi2)` of `[lo, hi)`, seen from
/// the enclosing range: sums over `[lo, hi)` are conserved and bounds on the
/// sub-range widen by the sub-range's spread.
proof fn lemma_sub_call(u: Seq<int>, lo: int, hi: int, lo2: int, hi2: int, b2: int)
    requires
        0 <= lo <= lo2 <= hi2 <= hi <= u.len(),
    ensures
        ({
            let t = rearrange_model(u, lo2, hi2);
            &&& t.len() == u.len()
            &&& agrees_outside(t, u, lo2, hi2)
            &&& sum_range(t, lo, hi) == sum_range(u, lo, hi)
            &&& (within(u, lo2, hi2, b2) ==> within(t, lo2, hi2, b2 + spread(hi2 - lo2)))
        }),
    decreases hi2 - lo2, 2int,
{
    let t = rearrange_model(u, lo2, hi2);
    lemma_rearrange_props(u, lo2, hi2, b2);
    lemma_sum_split(u, lo, lo2, hi);
    lemma_sum_split(u, lo2, hi2, hi);
    lemma_sum_split(t, lo, lo2, hi);
    lemma_sum_split(t, lo2, hi2, hi);
    lemma_sum_congruent(u, t, lo, lo2);
    lemma_sum_congruent(u, t, hi2, hi);
}

/// The pair of recursive passes that closes every redistribution step: first
/// into the left partition `[lo, m)`, then into the right partition
/// `[m, hi - 1)`, which stops short of the run's final cell.
proof fn lemma_two_tails(u: Seq<int>, lo: int, hi: int, m: int, bl: int, br: int)
    requires
        0 <= lo <= m < hi <= u.len(),
    ensures
        ({
            let t = rearrange_model(rearrange_model(u, lo, m), m, hi - 1);
            &&& t.len() == u.len()
            &&& agrees_outside(t, u, lo, hi)
            &&& sum_range(t, lo, hi) == sum_range(u, lo, hi)
            &&& (within(u, lo, m, bl) ==> within(t, lo, m, bl + spread(m - lo)))
            &&& (within(u, m, hi, br) ==> within(t, m, hi, br + spread(hi - 1 - m)))
        }),
    decreases hi - lo, 0int,
{
    lemma_spread_nonneg(m - lo);
    lemma_spread_nonneg(hi - 1 - m);
    let t1 = rearrange_model(u, lo, m);
    lemma_sub_call(u, lo, hi, lo, m, bl);
    lemma_sub_call(t1, lo, hi, m, hi - 1, br);
}

/// Powers of two, used only to evaluate `spread` at the widest admitted run.
spec fn tp(n: int) -> int
    decreases n,
{
    if n <= 0 {
        1
    } else {
        2 * tp(n - 1)
    }
}

proof fn lemma_tp_add(a: int, b: int)
    requires
        a >= 0,
        b >= 0,
    ensures
        tp(a + b) == tp(a) * tp(b),
    decreases b,
{
    if b == 0 {
    } else {
        lemma_tp_add(a, b - 1);
        assert(2 * (tp(a) * tp(b - 1)) == tp(a) * (2 * tp(b - 1))) by (nonlinear_arith);
    }
}

proof fn lemma_spread_tp(n: int)
    requires
        n >= 1,
    ensures
        spread(n) == tp(n - 1) - 1,
    decreases n,
{
    if n >= 2 {
        lemma_spread_tp(n - 1);
    }
}

/// The exact value of the envelope growth for the widest run the simulation
/// admits (100 cells).
pub proof fn lemma_spread_100()
    ensures
        spread(100) == 0x7ffffffffffffffffffffffff,
{
    assert(tp(3) == 8) by {
        reveal_with_fuel(tp, 4);
    }
    lemma_tp_add(3, 3);
    assert(tp(6) == 64);
    lemma_tp_add(6, 6);
    assert(tp(12) == 4096);
    lemma_tp_add(12, 12);
    assert(tp(24) == 0x1000000);
    lemma_tp_add(24, 24);
    assert(tp(48) == 0x1000000000000);
    lemma_tp_add(48, 48);
    assert(tp(96) == 0x1000000000000000000000000);
    lemma_tp_add(96, 3);
    assert(tp(99) == 0x8000000000000000000000000);
    lemma_spread_tp(100);
}

/// An hour of rain raises every height by one unit, so the run's sum rises
/// by two half-units per cell.
pub proof fn lemma_add_rain_sum(s: Seq<int>, lo: int, hi: int)
    requires
        0 <= lo <= hi <= s.len(),
    ensures
        sum_range(add_rain(s), lo, hi) == sum_range(s, lo, hi) + 2 * (hi - lo),
    decreases hi - lo,
{
    if hi > lo {
        lemma_add_rain_sum(s, lo, hi - 1);
    }
}

/// One simulated hour conserves water up to the rain it adds, and widens the
/// height envelope by at most one unit of rain plus one pass's spread.
pub proof fn lemma_hour_props(s: Seq<int>, b: int)
    ensures
        hour_model(s).len() == s.len(),
        sum_range(hour_model(s), 0, s.len() as int) == sum_range(s, 0, s.len() as int) + 2 * (
        s.len() as int),
        within(s, 0, s.len() as int, b) ==> within(
            hour_model(s),
            0,
            s.len() as int,
            b + 2 + spread(s.len() as int),
        ),
{
    let n = s.len() as int;
    lemma_add_rain_sum(s, 0, n);
    lemma_rearrange_props(add_rain(s), 0, n, b + 2);
    if within(s, 0, n, b) {
        assert(within(add_rain(s), 0, n, b + 2));
    }
}

/// Conservation: rain adds exactly one unit per cell per hour, and
/// redistribution only moves water, so after `hours` hours the sum of all
/// heights has grown by exactly `2 * len * hours` half-units — equivalently,
/// the total water equals `hours` rain units per cell.
pub proof fn lemma_rain_conservation(s: Seq<int>, hours: int)
    requires
        hours >= 0,
    ensures
        rain_model(s, hours).len() == s.len(),
        sum_range(rain_model(s, hours), 0, s.len() as int) == sum_range(s, 0, s.len() as int) + 2
            * (s.len() as int) * hours,
    decreases hours,
{
    let n = s.len() as int;
    if hours > 0 {
        let p = rain_model(s, hours - 1);
        lemma_rain_conservation(s, hours - 1);
        lemma_hour_props(p, 0);
        assert(p.len() == s.len());
        assert(rain_model(s, hours) == hour_model(p));
        assert(sum_range(hour_model(p), 0, n) == sum_range(p, 0, n) + 2 * n);
        assert(sum_range(p, 0, n) == sum_range(s, 0, n) + 2 * n * (hours - 1));
        assert(2 * n * (hours - 1) + 2 * n == 2 * n * hours) by (nonlinear_arith);
    } else {
        assert(rain_model(s, hours) == s);
        assert(2 * n * hours == 0) by (nonlinear_arith)
            requires
                hours == 0,
        ;
    }
}

/// Heights stay within a budget that grows by `2 + spread(len)` per hour.
pub proof fn lemma_rain_bounds(s: Seq<int>, hours: int, b: int)
    requires
        hours >= 0,
        within(s, 0, s.len() as int, b),
    ensures
        within(
            rain_model(s, hours),
            0,
            s.len() as int,
            b + hours * (2 + spread(s.len() as int)),
        ),
    decreases hours,
{
    let n = s.len() as int;
    let g = 2 + spread(n);
    if hours == 0 {
        lemma_spread_nonneg(n);
    } else {
        lemma_rain_bounds(s, hours - 1, b);
        lemma_rain_conservation(s, hours - 1);
        lemma_hour_props(rain_model(s, hours - 1), b + (hours - 1) * g);
        assert(b + (hours - 1) * g + g == b + hours * g) by (nonlinear_arith);
    }
}

/// Idempotence at equilibrium: on a run whose heights are all equal, a
/// redistribution pass changes nothing.
pub proof fn lemma_equilibrium_identity(s: Seq<int>, lo: int, hi: int)
    requires
        forall|i: int, j: int| lo <= i < hi && lo <= j < hi ==> s[i] == s[j],
    ensures
        rearrange_model(s, lo, hi) == s,
{
    if 0 <= lo && lo <= hi && hi <= s.len() && hi - lo >= 2 {
        lemma_max_idx_in(s, lo, hi);
        let m = max_idx_in(s, lo, hi);
        assert forall|i: int| lo <= i < hi implies #[trigger] s[i] == s[m] by {}
        assert(all_equal_in(s, lo, hi, m));
    }
}

/// Symmetric equalization: when every cell of the landscape is at the same
/// height, one hour of rain leaves every cell exactly one rain unit higher —
/// no water moves between cells.
pub proof fn lemma_equal_heights_one_hour(s: Seq<int>)
    requires
        forall|i: int, j: int| 0 <= i < s.len() && 0 <= j < s.len() ==> s[i] == s[j],
    ensures
        rain_model(s, 1).len() == s.len(),
        forall|i: int| 0 <= i < s.len() ==> #[trigger] rain_model(s, 1)[i] == s[i] + 2,
{
    let n = s.len() as int;
    let t = add_rain(s);
    assert forall|i: int, j: int| 0 <= i < n && 0 <= j < n implies t[i] == t[j] by {
        assert(t[i] == s[i] + 2);
        assert(t[j] == s[j] + 2);
    }
    lemma_equilibrium_identity(t, 0, n);
    assert(rain_model(s, 0) == s);
    assert(rain_model(s, 1) == hour_model(s));
    assert(hour_model(s) == t);
}

/// Single-cell identity: with one cell there is nowhere for water to flow,
/// so after `hours` hours the cell holds exactly `hours` rain units.
pub proof fn lemma_single_cell(s: Seq<int>, hours: int)
    requires
        s.len() == 1,
        hours >= 0,
    ensures
        rain_model(s, hours).len() == 1,
        rain_model(s, hours)[0] == s[0] + 2 * hours,
    decreases hours,
{
    if hours > 0 {
        lemma_single_cell(s, hours - 1);
        let p = rain_model(s, hours - 1);
        assert(add_rain(p)[0] == p[0] + 2);
    }
}

/// Height envelope (in half-units) within which a landscape may enter a run
/// of rain. It leaves room for 1000 hours of growth over 100 cells below
/// `height_cap`; a freshly built landscape (whose heights are at most twice
/// a `usize` base) lies far inside it.
pub open spec fn run_height_cap() -> int {
    0x10000000000000000000000000
}

/// The arithmetic headroom of a run: starting inside `run_height_cap`, after
/// at most 1000 hours over at most 100 cells, the heights still leave a full
/// pass's spread of room inside `height_cap`, plus one more hour of rain.
pub proof fn lemma_run_envelope(n: int, k: int)
    requires
        0 <= n <= 100,
        0 <= k <= 1000,
    ensures
        run_height_cap() + k * (2 + spread(n)) + 2 <= height_cap() - spread(n),
{
    lemma_spread_nonneg(n);
    lemma_spread_mono(n, 100);
    lemma_spread_100();
    assert(k * (2 + spread(n)) <= 1000 * (2 + spread(100))) by (nonlinear_arith)
        requires
            0 <= k <= 1000,
            0 <= spread(n) <= spread(100),
    ;
}

/// Monotonic totals: the sum of all heights never decreases as the run gets
/// longer, since rain is additive and redistribution conserves the sum.
pub proof fn lemma_total_monotone(s: Seq<int>, h1: int, h2: int)
    requires
        0 <= h1 <= h2,
    ensures
        sum_range(rain_model(s, h1), 0, s.len() as int) <= sum_range(
            rain_model(s, h2),
            0,
            s.len() as int,
        ),
{
    let n = s.len() as int;
    lemma_rain_conservation(s, h1);
    lemma_rain_conservation(s, h2);
    assert(2 * n * h1 <= 2 * n * h2) by (nonlinear_arith)
        requires
            0 <= h1 <= h2,
            n >= 0,
    ;
}

} // verus!
