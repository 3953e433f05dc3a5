//! The carve loop: validate the target, then repeatedly rebuild the
//! energy and cost matrices, extract the minimum-cost seam and delete it,
//! using a quarter turn to reduce horizontal seams to vertical ones.

use crate::cost_matrix::CostMatrix;
use crate::cost_matrix::Entry;
use crate::cost_matrix::argmin_upto;
use crate::cost_matrix::cm_wf;
use crate::cost_matrix::cost_matches;
use crate::cost_matrix::cost_spec;
use crate::cost_matrix::lemma_pred_in_range;
use crate::cost_matrix::pred_spec;
use crate::cost_matrix::row_costs;
use crate::energy_matrix::EnergyMatrix;
use crate::energy_matrix::MAX_GRADIENT;
use crate::energy_matrix::energy_spec;
use crate::error::CarveError;
use crate::raster::Pixel;
use crate::raster::Raster;
use crate::raster::lemma_rotate_roundtrip;
use crate::raster::raster_wf;
use crate::raster::remove_seam_spec;
use crate::raster::rotate270_spec;
use crate::raster::rotate90_spec;
use crate::raster::rows_view;
use crate::resize_dimension::ResizeDimension;
use vstd::prelude::*;

verus! {

/// Largest width or height a source raster may have: with per-pixel
/// energies at most `MAX_GRADIENT`, cumulative costs over that many rows
/// still fit an unsigned 32-bit accumulator.
pub const MAX_DIMENSION: u32 = u32::MAX / MAX_GRADIENT;

/// The energy grid of pixel grid `g`.
pub open spec fn energy_grid(g: Seq<Seq<Pixel>>) -> Seq<Seq<u32>> {
    Seq::new(g.len(), |y: int| Seq::new(g[0].len(), |x: int| energy_spec(g, x, y) as u32))
}

/// The costs along the bottom row of the cost matrix of `e`.
pub open spec fn last_row_costs(e: Seq<Seq<u32>>) -> Seq<int> {
    Seq::new(e[0].len(), |x: int| cost_spec(e, x, e.len() - 1))
}

/// The column of the minimum-cost seam of energy grid `e` in row `y`:
/// the bottom row takes the leftmost minimum of the cumulative costs,
/// every row above follows the backpointer of the row below it.
pub open spec fn seam_col(e: Seq<Seq<u32>>, y: int) -> int
    decreases e.len() - y,
{
    if y >= e.len() - 1 {
        argmin_upto(last_row_costs(e), e[0].len() as int)
    } else {
        pred_spec(e, seam_col(e, y + 1), y + 1)
    }
}

/// The minimum-cost seam of energy grid `e`, top row to bottom row.
pub open spec fn seam_spec(e: Seq<Seq<u32>>) -> Seq<int> {
    Seq::new(e.len(), |y: int| seam_col(e, y))
}

/// One carve step: delete the minimum-cost seam of `g`.
pub open spec fn carve_once(g: Seq<Seq<Pixel>>) -> Seq<Seq<Pixel>> {
    remove_seam_spec(g, seam_spec(energy_grid(g)))
}

/// `n` carve steps in sequence.
pub open spec fn carve_n(g: Seq<Seq<Pixel>>, n: nat) -> Seq<Seq<Pixel>>
    decreases n,
{
    if n == 0 {
        g
    } else {
        carve_once(carve_n(g, (n - 1) as nat))
    }
}

/// The whole carve: remove `v` vertical seams, turn clockwise, remove
/// `hs` seams of the turned raster (the horizontal seams of the original),
/// turn back.
pub open spec fn carve_full(g: Seq<Seq<Pixel>>, v: nat, hs: nat) -> Seq<Seq<Pixel>> {
    rotate270_spec(carve_n(rotate90_spec(carve_n(g, v)), hs))
}

/// One carve step keeps the grid well formed, keeps its height, and
/// narrows it by one column.
pub proof fn lemma_carve_once_dims(g: Seq<Seq<Pixel>>)
    requires
        raster_wf(g),
        g[0].len() >= 2,
    ensures
        raster_wf(carve_once(g)),
        carve_once(g).len() == g.len(),
        carve_once(g)[0].len() == g[0].len() - 1,
{
    assert(carve_once(g)[0].len() == g[0].len() - 1);
    assert forall|y: int| 0 <= y < carve_once(g).len() implies (#[trigger] carve_once(g)[y]).len()
        == carve_once(g)[0].len() by {
        assert(carve_once(g)[y].len() == g[0].len() - 1);
    }
}

/// `n` carve steps keep the grid well formed, keep its height, and narrow
/// it by `n` columns.
pub proof fn lemma_carve_n_dims(g: Seq<Seq<Pixel>>, n: nat)
    requires
        raster_wf(g),
        n < g[0].len(),
    ensures
        raster_wf(carve_n(g, n)),
        carve_n(g, n).len() == g.len(),
        carve_n(g, n)[0].len() == g[0].len() - n,
    decreases n,
{
    if n > 0 {
        lemma_carve_n_dims(g, (n - 1) as nat);
        lemma_carve_once_dims(carve_n(g, (n - 1) as nat));
    }
}

/// A quarter turn clockwise keeps the grid well formed and swaps its
/// dimensions.
pub proof fn lemma_rotate90_wf(g: Seq<Seq<Pixel>>)
    requires
        raster_wf(g),
    ensures
        raster_wf(rotate90_spec(g)),
        rotate90_spec(g).len() == g[0].len(),
        rotate90_spec(g)[0].len() == g.len(),
{
    assert(rotate90_spec(g)[0].len() == g.len());
    assert forall|y: int| 0 <= y < rotate90_spec(g).len() implies (#[trigger] rotate90_spec(
        g,
    )[y]).len() == rotate90_spec(g)[0].len() by {
        assert(rotate90_spec(g)[y].len() == g.len());
    }
}

/// A seam handed back by the cost matrix walk is, row for row, the seam
/// of the energy grid the matrix was built from.
#[verifier::rlimit(100)]
proof fn lemma_seam_walk(e: Seq<Seq<u32>>, m: Seq<Seq<Entry>>, s: Seq<usize>, y: int)
    requires
        cost_matches(m, e),
        cm_wf(m),
        e.len() >= 1,
        e[0].len() >= 1,
        e.len() >= 2 ==> e[0].len() >= 2,
        s.len() == m.len(),
        m[0].len() <= usize::MAX,
        forall|i: int| 0 <= i < s.len() ==> (#[trigger] s[i]) < m[0].len(),
        s[s.len() - 1] as int == argmin_upto(row_costs(m[m.len() - 1]), m[0].len() as int),
        forall|i: int| 0 <= i < s.len() - 1 ==> Some(#[trigger] s[i]) == m[i + 1][s[i + 1] as int].prev,
        0 <= y < s.len(),
    ensures
        s[y] as int == seam_col(e, y),
    decreases s.len() - y,
{
    if y == s.len() - 1 {
        assert(row_costs(m[m.len() - 1]) =~= last_row_costs(e));
    } else {
        lemma_seam_walk(e, m, s, y + 1);
        lemma_pred_in_range(e, s[y + 1] as int, y + 1);
        assert(Some(s[y]) == m[y + 1][s[y + 1] as int].prev);
        assert(m[y + 1][s[y + 1] as int].prev == Some(pred_spec(e, s[y + 1] as int, y + 1) as usize));
        assert(0 <= pred_spec(e, s[y + 1] as int, y + 1) < m[0].len());
        assert(s[y] as int == pred_spec(e, s[y + 1] as int, y + 1));
        assert(seam_col(e, y) == pred_spec(e, seam_col(e, y + 1), y + 1));
    }
}

/// The width the carve aims at: an unnamed width keeps the source width.
pub open spec fn target_width(rd: ResizeDimension, w: int) -> int {
    match rd {
        ResizeDimension::Width(tw) => tw as int,
        ResizeDimension::Height(_) => w,
        ResizeDimension::WidthHeight(tw, _) => tw as int,
    }
}

/// The height the carve aims at: an unnamed height keeps the source
/// height.
pub open spec fn target_height(rd: ResizeDimension, h: int) -> int {
    match rd {
        ResizeDimension::Width(_) => h,
        ResizeDimension::Height(th) => th as int,
        ResizeDimension::WidthHeight(_, th) => th as int,
    }
}

/// With no seams to remove on either axis, the carve hands the grid back
/// pixel for pixel.
pub proof fn lemma_zero_seam_identity(g: Seq<Seq<Pixel>>)
    requires
        raster_wf(g),
    ensures
        carve_full(g, 0, 0) == g,
{
    lemma_rotate_roundtrip(g);
}

/// Carving only a height reduction equals: turn clockwise, carve the same
/// number of seams as a width reduction, turn counterclockwise.
pub proof fn lemma_axis_symmetry(g: Seq<Seq<Pixel>>, k: nat)
    requires
        raster_wf(g),
        k < g.len(),
    ensures
        carve_full(g, 0, k) == rotate270_spec(carve_full(rotate90_spec(g), k, 0)),
{
    let g2 = rotate90_spec(g);
    lemma_rotate90_wf(g);
    lemma_carve_n_dims(g2, k);
    lemma_rotate_roundtrip(carve_n(g2, k));
}

/// The orchestrator: the current raster plus how many seams are still to
/// be removed on each axis.
#[derive(Debug)]
pub struct Seamcarver {
    image: Raster,
    carve_v_seams: u32,
    carve_h_seams: u32,
}

impl Seamcarver {
    /// The pixel grid the carver currently holds.
    pub closed spec fn img(&self) -> Seq<Seq<Pixel>> {
        self.image@
    }

    /// Vertical seams still to remove.
    pub closed spec fn v_seams(&self) -> u32 {
        self.carve_v_seams
    }

    /// Horizontal seams still to remove.
    pub closed spec fn h_seams(&self) -> u32 {
        self.carve_h_seams
    }

    /// A carver only exists around a well-formed raster whose dimensions
    /// and seam counts stay within the overflow-safe bound.
    pub closed spec fn wf(&self) -> bool {
        &&& raster_wf(self.image@)
        &&& self.image@[0].len() <= MAX_DIMENSION
        &&& self.image@.len() <= MAX_DIMENSION
        &&& self.carve_v_seams <= MAX_DIMENSION
        &&& self.carve_h_seams <= MAX_DIMENSION
    }

    /// Validates the source dimensions against the overflow-safe bound
    /// and the resolved target against the source, then stores how many
    /// seams each axis needs.
    pub fn new(image: Raster, rd: ResizeDimension) -> (r: Result<Seamcarver, CarveError>)
        requires
            image.wf(),
        ensures
            ({
                let w = image@[0].len() as int;
                let h = image@.len() as int;
                &&& (w > MAX_DIMENSION || h > MAX_DIMENSION) ==> r == Err::<
                    Seamcarver,
                    CarveError,
                >(CarveError::DimensionTooLarge)
                &&& (w <= MAX_DIMENSION && h <= MAX_DIMENSION && (target_width(rd, w) > w
                    || target_height(rd, h) > h)) ==> r == Err::<Seamcarver, CarveError>(
                    CarveError::TargetLargerThanSource,
                )
                &&& (w <= MAX_DIMENSION && h <= MAX_DIMENSION && target_width(rd, w) <= w
                    && target_height(rd, h) <= h) ==> (r is Ok && r->Ok_0.wf() && r->Ok_0.img()
                    == image@ && r->Ok_0.v_seams() == w - target_width(rd, w)
                    && r->Ok_0.h_seams() == h - target_height(rd, h))
            }),
    {
        let w = image.width();
        let h = image.height();
        if w > MAX_DIMENSION as usize || h > MAX_DIMENSION as usize {
            return Err(CarveError::DimensionTooLarge);
        }
        let (tw, th): (usize, usize) = match rd {
            ResizeDimension::Width(a) => (a as usize, h),
            ResizeDimension::Height(a) => (w, a as usize),
            ResizeDimension::WidthHeight(a, b) => (a as usize, b as usize),
        };
        if tw > w || th > h {
            return Err(CarveError::TargetLargerThanSource);
        }
        let carve_v_seams = (w - tw) as u32;
        let carve_h_seams = (h - th) as u32;
        Ok(Seamcarver { image, carve_v_seams, carve_h_seams })
    }

    /// The total number of seams the carve loop will remove; sized for a
    /// progress display.
    pub fn num_seams_to_be_carved(&self) -> (r: u32)
        requires
            self.wf(),
        ensures
            r == self.v_seams() + self.h_seams(),
    {
        proof {
            assert(MAX_GRADIENT == 390150);
            assert(MAX_DIMENSION <= 11008);
        }
        self.carve_v_seams + self.carve_h_seams
    }

    /// Rebuilds the matrices from the current raster, extracts the
    /// minimum-cost seam and deletes it, replacing the raster with one a
    /// column narrower.
    fn carve_v_seam(&mut self)
        requires
            old(self).wf(),
            old(self).img()[0].len() >= 2,
        ensures
            final(self).wf(),
            final(self).img() == carve_once(old(self).img()),
            final(self).v_seams() == old(self).v_seams(),
            final(self).h_seams() == old(self).h_seams(),
            final(self).img().len() == old(self).img().len(),
            final(self).img()[0].len() == old(self).img()[0].len() - 1,
    {
        let ghost g = self.image@;
        let ghost e = energy_grid(g);
        let em = EnergyMatrix::new(&self.image);
        proof {
            assert forall|y: int, x: int|
                0 <= y < g.len() && 0 <= x < g[0].len() implies em@[y][x] == e[y][x] by {
                crate::energy_matrix::lemma_energy_bounds(g, x, y);
            }
            assert(em@ =~~= e);
            assert(MAX_DIMENSION * MAX_GRADIENT <= u32::MAX) by (nonlinear_arith);
            assert(em@.len() * MAX_GRADIENT <= u32::MAX) by (nonlinear_arith)
                requires
                    em@.len() <= MAX_DIMENSION && MAX_DIMENSION * MAX_GRADIENT <= u32::MAX
                        && MAX_GRADIENT >= 0,
            ;
        }
        let cm = CostMatrix::new(&em);
        let min_seam = cm.min_cost_seam();
        proof {
            assert forall|y: int| 0 <= y < min_seam@.len() implies min_seam@[y] as int == seam_col(
                e,
                y,
            ) by {
                lemma_seam_walk(e, cm@, min_seam@, y);
            }
        }
        let h = self.image.height();
        let w = self.image.width();
        let new_w = w - 1;
        let mut rows: Vec<Vec<Pixel>> = Vec::new();
        let mut y: usize = 0;
        while y < h
            invariant
                0 <= y <= h,
                g == self.image@,
                raster_wf(g),
                h == g.len(),
                w == g[0].len(),
                w >= 2,
                new_w == w - 1,
                min_seam@.len() == h,
                forall|j: int| 0 <= j < h ==> min_seam@[j] as int == seam_col(e, j),
                e == energy_grid(g),
                rows@.len() == y,
                forall|j: int| 0 <= j < y ==> (#[trigger] rows@[j]@).len() == new_w,
                forall|j: int, i: int|
                    0 <= j < y && 0 <= i < new_w ==> (#[trigger] rows@[j]@[i]) == (if i < seam_col(
                        e,
                        j,
                    ) {
                        g[j][i]
                    } else {
                        g[j][i + 1]
                    }),
            decreases h - y,
        {
            let col_to_remove = min_seam[y];
            let mut row: Vec<Pixel> = Vec::new();
            let mut x: usize = 0;
            while x < new_w
                invariant
                    0 <= x <= new_w,
                    0 <= y < h,
                    g == self.image@,
                    raster_wf(g),
                    h == g.len(),
                    w == g[0].len(),
                    new_w == w - 1,
                    col_to_remove as int == seam_col(e, y as int),
                    row@.len() == x,
                    forall|i: int|
                        0 <= i < x ==> (#[trigger] row@[i]) == (if i < seam_col(e, y as int) {
                            g[y as int][i]
                        } else {
                            g[y as int][i + 1]
                        }),
                decreases new_w - x,
            {
                if x < col_to_remove {
                    row.push(self.image.get(x, y));
                } else {
                    row.push(self.image.get(x + 1, y));
                }
                x += 1;
            }
            rows.push(row);
            y += 1;
        }
        proof {
            assert(rows_view(rows@) =~~= remove_seam_spec(g, seam_spec(e)));
        }
        self.image = Raster::from_rows(rows);
    }

    /// Runs the carve to completion and returns the shrunk raster,
    /// consuming the carver and invoking `on_seam_carved` once per
    /// removed seam.
    ///
    /// Both target dimensions must be at least one: a raster cannot lose
    /// its last row or column.
    pub fn carve<F: Fn() -> ()>(self, on_seam_carved: F) -> (r: Raster)
        requires
            self.wf(),
            self.v_seams() < self.img()[0].len(),
            self.h_seams() < self.img().len(),
            call_requires(on_seam_carved, ()),
        ensures
            r.wf(),
            r@ == carve_full(self.img(), self.v_seams() as nat, self.h_seams() as nat),
            r@.len() == self.img().len() - self.h_seams(),
            r@[0].len() == self.img()[0].len() - self.v_seams(),
    {
        let ghost g0 = self.img();
        let ghost v = self.v_seams();
        let ghost hs = self.h_seams();
        let mut this = self;
        let vcount = this.carve_v_seams;
        let mut i: u32 = 0;
        while i < vcount
            invariant
                0 <= i <= vcount,
                vcount == v,
                this.wf(),
                raster_wf(g0),
                v < g0[0].len(),
                hs < g0.len(),
                this.img() == carve_n(g0, i as nat),
                this.v_seams() == v,
                this.h_seams() == hs,
                this.img().len() == g0.len(),
                this.img()[0].len() == g0[0].len() - i,
                call_requires(on_seam_carved, ()),
            decreases vcount - i,
        {
            this.carve_v_seam();
            on_seam_carved();
            i += 1;
        }
        proof {
            lemma_carve_n_dims(g0, v as nat);
        }

        let rotated = this.image.rotated90();
        this.image = rotated;
        let ghost g1 = rotate90_spec(carve_n(g0, v as nat));
        proof {
            lemma_rotate90_wf(carve_n(g0, v as nat));
        }

        let hcount = this.carve_h_seams;
        let mut i2: u32 = 0;
        while i2 < hcount
            invariant
                0 <= i2 <= hcount,
                hcount == hs,
                this.wf(),
                raster_wf(g1),
                hs < g1[0].len(),
                this.img() == carve_n(g1, i2 as nat),
                this.v_seams() == v,
                this.h_seams() == hs,
                this.img().len() == g1.len(),
                this.img()[0].len() == g1[0].len() - i2,
                call_requires(on_seam_carved, ()),
            decreases hcount - i2,
        {
            this.carve_v_seam();
            on_seam_carved();
            i2 += 1;
        }
        proof {
            lemma_carve_n_dims(g1, hs as nat);
        }
        let back = this.image.rotated270();
        back
    }
}

} // verus!

