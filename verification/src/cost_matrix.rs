//! The dynamic program over an energy grid: for every pixel, the minimum
//! cumulative cost of a connected vertical path reaching it from the top
//! row, with a backpointer to the chosen predecessor column.

use crate::energy_matrix::EnergyMatrix;
use crate::energy_matrix::MAX_GRADIENT;
use crate::energy_matrix::energy_wf;
use vstd::prelude::*;

verus! {

/// One cell of the cost matrix: the cumulative cost, and the predecessor
/// column in the row above (absent in row 0).
#[derive(Clone, Copy, PartialEq, Eq, Debug)]
pub struct Entry {
    pub cost: u32,
    pub prev: Option<usize>,
}

/// Of two candidate columns with their costs, the earlier one wins ties.
pub open spec fn choose2(c1: int, c2: int, i1: int, i2: int) -> int {
    if c1 < c2 {
        i1
    } else {
        i2
    }
}

/// Of three candidate columns: the left one if strictly cheaper than both
/// others, else the middle one if strictly cheaper than both others, else
/// the right one. In a genuine three-way tie this falls through to the
/// right candidate; it is not a leftmost argmin.
pub open spec fn choose3(c1: int, c2: int, c3: int, i1: int, i2: int, i3: int) -> int {
    if c1 < c2 && c1 < c3 {
        i1
    } else if c2 < c1 && c2 < c3 {
        i2
    } else {
        i3
    }
}

/// The predecessor column chosen for (x, y), y >= 1: the candidates are
/// x-1, x, x+1 clipped to the column range, compared by cumulative cost
/// in the row above with the exact tie-break of `choose2`/`choose3`.
pub open spec fn pred_spec(e: Seq<Seq<u32>>, x: int, y: int) -> int
    decreases y, 0int,
{
    let w = e[0].len() as int;
    if y < 1 {
        0
    } else if x == 0 {
        choose2(cost_spec(e, 0, y - 1), cost_spec(e, 1, y - 1), 0, 1)
    } else if x == w - 1 {
        choose2(cost_spec(e, x - 1, y - 1), cost_spec(e, x, y - 1), x - 1, x)
    } else {
        choose3(
            cost_spec(e, x - 1, y - 1),
            cost_spec(e, x, y - 1),
            cost_spec(e, x + 1, y - 1),
            x - 1,
            x,
            x + 1,
        )
    }
}

/// The cumulative cost the recurrence assigns to (x, y): row 0 is the
/// energy itself; below, the energy plus the cumulative cost above the
/// chosen predecessor column. Because `choose3` can fall through to the
/// right candidate in equal-cost patterns, this follows the exact
/// decision procedure rather than a generic minimum.
pub open spec fn cost_spec(e: Seq<Seq<u32>>, x: int, y: int) -> int
    decreases y, 1int,
{
    if y <= 0 {
        e[0][x] as int
    } else {
        e[y][x] + cost_spec(e, pred_spec(e, x, y), y - 1)
    }
}

/// The chosen predecessor is one of x-1, x, x+1 and lies in the column
/// range.
pub proof fn lemma_pred_in_range(e: Seq<Seq<u32>>, x: int, y: int)
    requires
        e[0].len() >= 2,
        0 <= x < e[0].len(),
        y >= 1,
    ensures
        x - 1 <= pred_spec(e, x, y) <= x + 1,
        0 <= pred_spec(e, x, y) < e[0].len(),
{
}

/// With every energy at most `MAX_GRADIENT`, the cumulative cost at row y
/// is at most (y + 1) * `MAX_GRADIENT`; this is what makes the 32-bit
/// accumulation safe.
pub proof fn lemma_cost_bound(e: Seq<Seq<u32>>, x: int, y: int)
    requires
        energy_wf(e),
        0 <= x < e[0].len(),
        0 <= y < e.len(),
        e.len() >= 2 ==> e[0].len() >= 2,
    ensures
        0 <= cost_spec(e, x, y) <= (y + 1) * MAX_GRADIENT,
    decreases y,
{
    if y <= 0 {
        assert(e[0][x] <= MAX_GRADIENT);
    } else {
        lemma_pred_in_range(e, x, y);
        let p = pred_spec(e, x, y);
        lemma_cost_bound(e, p, y - 1);
        assert(e[y][x] <= MAX_GRADIENT);
        assert((y + 1) * MAX_GRADIENT == y * MAX_GRADIENT + MAX_GRADIENT) by (nonlinear_arith);
    }
}

/// `m` is exactly the cost matrix of energy grid `e`: costs follow the
/// recurrence and backpointers follow the tie-break rule.
pub open spec fn cost_matches(m: Seq<Seq<Entry>>, e: Seq<Seq<u32>>) -> bool {
    &&& m.len() == e.len()
    &&& forall|y: int| 0 <= y < m.len() ==> (#[trigger] m[y]).len() == e[0].len()
    &&& forall|x: int| 0 <= x < e[0].len() ==> (#[trigger] m[0][x]).prev is None
    &&& forall|y: int, x: int|
        0 <= y < e.len() && 0 <= x < e[0].len() ==> (#[trigger] m[y][x]).cost == cost_spec(e, x, y)
    &&& forall|y: int, x: int|
        1 <= y < e.len() && 0 <= x < e[0].len() ==> (#[trigger] m[y][x]).prev == Some(
            pred_spec(e, x, y) as usize,
        )
}

/// The structure every cost matrix hands out: non-empty, rectangular, and
/// below row 0 every backpointer present, in range, and at most one
/// column away from its cell.
pub open spec fn cm_wf(m: Seq<Seq<Entry>>) -> bool {
    &&& m.len() >= 1
    &&& m[0].len() >= 1
    &&& forall|y: int| 0 <= y < m.len() ==> (#[trigger] m[y]).len() == m[0].len()
    &&& forall|y: int, x: int|
        1 <= y < m.len() && 0 <= x < m[0].len() ==> (#[trigger] m[y][x]).prev is Some && x - 1
            <= m[y][x].prev->Some_0 <= x + 1 && 0 <= m[y][x].prev->Some_0 < m[0].len()
}

/// The first (leftmost) index among the first `n` values of `costs` that
/// holds their minimum; a later equal value never displaces it.
pub open spec fn argmin_upto(costs: Seq<int>, n: int) -> int
    decreases n,
{
    if n <= 1 {
        0
    } else {
        let p = argmin_upto(costs, n - 1);
        if costs[n - 1] < costs[p] {
            n - 1
        } else {
            p
        }
    }
}

/// The costs of one row of entries.
pub open spec fn row_costs(row: Seq<Entry>) -> Seq<int> {
    row.map_values(|en: Entry| en.cost as int)
}

pub proof fn lemma_argmin_in_range(costs: Seq<int>, n: int)
    requires
        n >= 1,
    ensures
        0 <= argmin_upto(costs, n) < n,
    decreases n,
{
    if n > 1 {
        lemma_argmin_in_range(costs, n - 1);
    }
}

/// `argmin_upto` picks a minimum, and everything strictly before the pick
/// is strictly larger (the pick is the first occurrence of the minimum).
pub proof fn lemma_argmin_first_min(costs: Seq<int>, n: int)
    requires
        n >= 1,
    ensures
        forall|j: int| 0 <= j < n ==> costs[argmin_upto(costs, n)] <= #[trigger] costs[j],
        forall|j: int| 0 <= j < argmin_upto(costs, n) ==> #[trigger] costs[j] > costs[
            argmin_upto(costs, n)
        ],
    decreases n,
{
    if n > 1 {
        lemma_argmin_first_min(costs, n - 1);
        lemma_argmin_in_range(costs, n - 1);
    }
}

/// The grid that a sequence of entry rows stands for.
pub open spec fn entry_rows_view(rows: Seq<Vec<Entry>>) -> Seq<Seq<Entry>> {
    rows.map_values(|q: Vec<Entry>| q@)
}

/// Of the two cells of `sp` at `idx1` and `idx2`, the index whose cost is
/// smaller; `idx1` wins ties.
pub fn min2(sp: &Vec<Entry>, idx1: usize, idx2: usize) -> (r: usize)
    requires
        idx1 < sp@.len(),
        idx2 < sp@.len(),
    ensures
        r as int == choose2(
            sp@[idx1 as int].cost as int,
            sp@[idx2 as int].cost as int,
            idx1 as int,
            idx2 as int,
        ),
{
    if sp[idx1].cost < sp[idx2].cost {
        idx1
    } else {
        idx2
    }
}

/// Of the three cells of `sp` at `idx1`, `idx2`, `idx3`, the index picked
/// by the three-way tie-break rule of `choose3`.
pub fn min3(sp: &Vec<Entry>, idx1: usize, idx2: usize, idx3: usize) -> (r: usize)
    requires
        idx1 < sp@.len(),
        idx2 < sp@.len(),
        idx3 < sp@.len(),
    ensures
        r as int == choose3(
            sp@[idx1 as int].cost as int,
            sp@[idx2 as int].cost as int,
            sp@[idx3 as int].cost as int,
            idx1 as int,
            idx2 as int,
            idx3 as int,
        ),
{
    if sp[idx1].cost < sp[idx2].cost && sp[idx1].cost < sp[idx3].cost {
        idx1
    } else if sp[idx2].cost < sp[idx1].cost && sp[idx2].cost < sp[idx3].cost {
        idx2
    } else {
        idx3
    }
}

/// The cost matrix of one energy grid.
pub struct CostMatrix {
    rows: Vec<Vec<Entry>>,
}

impl View for CostMatrix {
    type V = Seq<Seq<Entry>>;

    closed spec fn view(&self) -> Seq<Seq<Entry>> {
        entry_rows_view(self.rows@)
    }
}

impl CostMatrix {
    /// Every cost matrix that can be handed out is well structured.
    pub open spec fn wf(&self) -> bool {
        cm_wf(self@)
    }

    /// Runs the top-to-bottom dynamic program over `em`.
    ///
    /// The energy grid must leave room for the left/right candidate pair
    /// whenever there is more than one row, and must be short enough that
    /// the cumulative costs fit an unsigned 32-bit accumulator.
    pub fn new(em: &EnergyMatrix) -> (r: CostMatrix)
        requires
            em.wf(),
            em@.len() >= 2 ==> em@[0].len() >= 2,
            em@.len() * MAX_GRADIENT <= u32::MAX,
        ensures
            r.wf(),
            cost_matches(r@, em@),
    {
        let ghost e = em@;
        let w = em.width();
        let h = em.height();
        let mut rows: Vec<Vec<Entry>> = Vec::new();

        let mut first_row: Vec<Entry> = Vec::new();
        let mut x: usize = 0;
        while x < w
            invariant
                0 <= x <= w,
                em.wf(),
                e == em@,
                w == e[0].len(),
                first_row@.len() == x,
                forall|i: int| 0 <= i < x ==> (#[trigger] first_row@[i]).cost == cost_spec(e, i, 0),
                forall|i: int| 0 <= i < x ==> (#[trigger] first_row@[i]).prev is None,
            decreases w - x,
        {
            first_row.push(Entry { cost: em.get_energy(x, 0), prev: None });
            x += 1;
        }
        rows.push(first_row);

        let img_end_idx = w - 1;
        let mut y: usize = 1;
        while y < h
            invariant
                1 <= y <= h,
                em.wf(),
                e == em@,
                w == e[0].len(),
                h == e.len(),
                h >= 2 ==> w >= 2,
                h * MAX_GRADIENT <= u32::MAX,
                img_end_idx == w - 1,
                rows@.len() == y,
                forall|j: int| 0 <= j < y ==> (#[trigger] rows@[j]@).len() == w,
                forall|j: int, i: int|
                    0 <= j < y && 0 <= i < w ==> (#[trigger] rows@[j]@[i]).cost == cost_spec(
                        e,
                        i,
                        j,
                    ),
                forall|i: int| 0 <= i < w ==> (#[trigger] rows@[0]@[i]).prev is None,
                forall|j: int, i: int|
                    1 <= j < y && 0 <= i < w ==> (#[trigger] rows@[j]@[i]).prev == Some(
                        pred_spec(e, i, j) as usize,
                    ),
            decreases h - y,
        {
            let mut new_row: Vec<Entry> = Vec::new();
            let mut x: usize = 0;
            while x < w
                invariant
                    0 <= x <= w,
                    1 <= y < h,
                    em.wf(),
                    e == em@,
                    w == e[0].len(),
                    h == e.len(),
                    w >= 2,
                    h * MAX_GRADIENT <= u32::MAX,
                    img_end_idx == w - 1,
                    rows@.len() == y,
                    forall|j: int| 0 <= j < y ==> (#[trigger] rows@[j]@).len() == w,
                    forall|j: int, i: int|
                        0 <= j < y && 0 <= i < w ==> (#[trigger] rows@[j]@[i]).cost == cost_spec(
                            e,
                            i,
                            j,
                        ),
                    new_row@.len() == x,
                    forall|i: int| 0 <= i < x ==> (#[trigger] new_row@[i]).cost == cost_spec(
                        e,
                        i,
                        y as int,
                    ),
                    forall|i: int| 0 <= i < x ==> (#[trigger] new_row@[i]).prev == Some(
                        pred_spec(e, i, y as int) as usize,
                    ),
                decreases w - x,
            {
                let prev_row = &rows[y - 1];
                let prev_min_idx: usize = if x == 0 {
                    min2(prev_row, x, x + 1)
                } else if x == img_end_idx {
                    min2(prev_row, x - 1, x)
                } else {
                    min3(prev_row, x - 1, x, x + 1)
                };
                proof {
                    lemma_pred_in_range(e, x as int, y as int);
                    assert(prev_min_idx as int == pred_spec(e, x as int, y as int));
                    lemma_cost_bound(e, prev_min_idx as int, y as int - 1);
                    assert(MAX_GRADIENT + y * MAX_GRADIENT <= h * MAX_GRADIENT) by (nonlinear_arith)
                        requires
                            1 <= y < h,
                    ;
                }
                let prev_cost = prev_row[prev_min_idx].cost;
                let cost = em.get_energy(x, y) + prev_cost;
                new_row.push(Entry { cost, prev: Some(prev_min_idx) });
                x += 1;
            }
            rows.push(new_row);
            y += 1;
        }

        let r = CostMatrix { rows };
        proof {
            assert forall|yy: int, xx: int|
                1 <= yy < r@.len() && 0 <= xx < r@[0].len() implies (#[trigger] r@[yy][xx]).prev
                is Some && xx - 1 <= r@[yy][xx].prev->Some_0 <= xx + 1 && 0 <= r@[yy][xx].prev->Some_0
                < r@[0].len() by {
                lemma_pred_in_range(e, xx, yy);
            }
        }
        r
    }

    /// The cell at column `x` of row `y`.
    pub fn entry(&self, x: usize, y: usize) -> (r: Entry)
        requires
            y < self@.len(),
            x < self@[y as int].len(),
        ensures
            r == self@[y as int][x as int],
    {
        let row = &self.rows[y];
        row[x]
    }

    /// The number of columns.
    pub fn width(&self) -> (r: usize)
        requires
            self@.len() >= 1,
        ensures
            r == self@[0].len(),
    {
        let row = &self.rows[0];
        row.len()
    }

    /// The number of rows.
    pub fn height(&self) -> (r: usize)
        ensures
            r == self@.len(),
    {
        self.rows.len()
    }

    /// Walks from the cheapest cell of the bottom row (leftmost on ties)
    /// up the backpointers and returns one column per row, top to bottom.
    ///
    /// Consecutive entries differ by at most one column: every seam this
    /// returns is connected.
    #[verifier::rlimit(60)]
    pub fn min_cost_seam(&self) -> (r: Vec<usize>)
        requires
            self.wf(),
        ensures
            r@.len() == self@.len(),
            forall|y: int| 0 <= y < r@.len() ==> (#[trigger] r@[y]) < self@[0].len(),
            r@[r@.len() - 1] as int == argmin_upto(
                row_costs(self@[self@.len() - 1]),
                self@[0].len() as int,
            ),
            forall|x: int|
                0 <= x < self@[0].len() ==> self@[self@.len() - 1][r@[r@.len() - 1] as int].cost
                    <= (#[trigger] self@[self@.len() - 1][x]).cost,
            forall|x: int|
                0 <= x < r@[r@.len() - 1] ==> (#[trigger] self@[self@.len() - 1][x]).cost
                    > self@[self@.len() - 1][r@[r@.len() - 1] as int].cost,
            forall|y: int|
                0 <= y < r@.len() - 1 ==> Some(#[trigger] r@[y]) == self@[y + 1][r@[y + 1] as int].prev,
            forall|y: int|
                0 <= y < r@.len() - 1 ==> r@[y] <= #[trigger] r@[y + 1] + 1 && r@[y + 1] <= r@[y]
                    + 1,
    {
        let ghost m = self@;
        let h = self.rows.len();
        let w = {
            let row0 = &self.rows[0];
            row0.len()
        };
        let last = &self.rows[h - 1];
        proof {
            assert(last@ == m[h - 1]);
            assert(m[h - 1].len() == m[0].len());
        }
        let ghost costs = row_costs(last@);
        let mut best: usize = 0;
        let mut x: usize = 1;
        while x < w
            invariant
                1 <= x <= w,
                last@.len() == w,
                costs == row_costs(last@),
                0 <= best < x,
                best as int == argmin_upto(costs, x as int),
            decreases w - x,
        {
            if last[x].cost < last[best].cost {
                best = x;
            }
            x += 1;
        }

        let mut down: Vec<usize> = Vec::new();
        down.push(best);
        let mut c: usize = best;
        let mut y: usize = h - 1;
        while y >= 1
            invariant
                0 <= y <= h - 1,
                h == m.len(),
                w == m[0].len(),
                self.wf(),
                m == self@,
                down@.len() == h - y,
                c == down@[down@.len() - 1],
                down@[0] == best,
                forall|i: int| 0 <= i < down@.len() ==> (#[trigger] down@[i]) < w,
                forall|i: int|
                    0 <= i < down@.len() - 1 ==> Some(#[trigger] down@[i + 1]) == m[h - 1 - i][down@[i] as int].prev,
            decreases y,
        {
            let row = &self.rows[y];
            proof {
                assert(row@ == m[y as int]);
                assert(m[y as int].len() == m[0].len());
                assert((m[y as int][c as int]).prev is Some);
            }
            c = row[c].prev.unwrap();
            down.push(c);
            y -= 1;
        }

        proof {
            lemma_argmin_first_min(costs, w as int);
            lemma_argmin_in_range(costs, w as int);
            assert(forall|x: int| 0 <= x < w ==> costs[x] == (#[trigger] m[h - 1][x]).cost);
        }
        let n = down.len();
        let mut r: Vec<usize> = Vec::new();
        let mut i: usize = 0;
        while i < n
            invariant
                0 <= i <= n,
                n == down@.len(),
                r@.len() == i,
                forall|k: int| 0 <= k < i ==> (#[trigger] r@[k]) == down@[n - 1 - k],
            decreases n - i,
        {
            r.push(down[n - 1 - i]);
            i += 1;
        }
        proof {
            assert forall|yy: int| 0 <= yy < h - 1 implies Some(#[trigger] r@[yy]) == m[yy + 1][r@[yy
                + 1] as int].prev by {
                assert(r@[yy] == down@[h - 1 - yy]);
                assert(r@[yy + 1] == down@[h - 2 - yy]);
                assert(Some(down@[(h - 2 - yy) + 1]) == m[h - 1 - (h - 2 - yy)][down@[h - 2 - yy] as int].prev);
            }
        }
        r
    }
}

} // verus!
