//! Per-pixel importance scores: for every pixel, the sum of a horizontal
//! and a vertical gradient-magnitude term over its toroidal neighbors.

use crate::raster::Pixel;
use crate::raster::Raster;
use vstd::prelude::*;

verus! {

/// Largest possible per-pixel energy: two gradient terms, each the sum of
/// three squared channel differences of at most 255.
pub const MAX_GRADIENT: u32 = 255 * 255 * 3 * 2;

/// The square of an integer.
pub open spec fn sq(v: int) -> int {
    v * v
}

/// Gradient magnitude between two pixels: the sum, over the three color
/// channels, of the squared channel difference.
pub open spec fn gradient_spec(a: Pixel, b: Pixel) -> int {
    sq(a.r - b.r) + sq(a.g - b.g) + sq(a.b - b.b)
}

/// The column left of `i`, wrapping to the last column at the left edge;
/// also the row above, wrapping to the bottom row at the top edge.
pub open spec fn wrap_dec(i: int, n: int) -> int {
    if i == 0 {
        n - 1
    } else {
        i - 1
    }
}

/// The column right of `i`, wrapping to column 0 at the right edge; also
/// the row below, wrapping to the top row at the bottom edge.
pub open spec fn wrap_inc(i: int, n: int) -> int {
    if i + 1 == n {
        0
    } else {
        i + 1
    }
}

/// The energy of pixel (x, y) of grid `g`: horizontal gradient term plus
/// vertical gradient term, neighbors taken with toroidal wraparound.
pub open spec fn energy_spec(g: Seq<Seq<Pixel>>, x: int, y: int) -> int {
    let w = g[0].len() as int;
    let h = g.len() as int;
    gradient_spec(g[y][wrap_dec(x, w)], g[y][wrap_inc(x, w)]) + gradient_spec(
        g[wrap_dec(y, h)][x],
        g[wrap_inc(y, h)][x],
    )
}

proof fn lemma_sq_bound(v: int)
    requires
        -255 <= v <= 255,
    ensures
        0 <= sq(v) <= 65025,
{
    assert(0 <= v * v <= 65025) by (nonlinear_arith)
        requires
            -255 <= v <= 255,
    ;
}

/// A gradient term lies between 0 and three squared maximal differences.
pub proof fn lemma_gradient_bounds(a: Pixel, b: Pixel)
    ensures
        0 <= gradient_spec(a, b) <= 3 * 255 * 255,
{
    lemma_sq_bound(a.r - b.r);
    lemma_sq_bound(a.g - b.g);
    lemma_sq_bound(a.b - b.b);
}

/// A pixel's energy lies between 0 and `MAX_GRADIENT`.
pub proof fn lemma_energy_bounds(g: Seq<Seq<Pixel>>, x: int, y: int)
    ensures
        0 <= energy_spec(g, x, y) <= MAX_GRADIENT,
{
    let w = g[0].len() as int;
    let h = g.len() as int;
    lemma_gradient_bounds(g[y][wrap_dec(x, w)], g[y][wrap_inc(x, w)]);
    lemma_gradient_bounds(g[wrap_dec(y, h)][x], g[wrap_inc(y, h)][x]);
}

/// A well-formed energy grid: non-empty, rectangular, every entry at most
/// `MAX_GRADIENT` (which is what keeps the cost recurrence from
/// overflowing later).
pub open spec fn energy_wf(e: Seq<Seq<u32>>) -> bool {
    &&& e.len() >= 1
    &&& e[0].len() >= 1
    &&& forall|y: int| 0 <= y < e.len() ==> (#[trigger] e[y]).len() == e[0].len()
    &&& forall|y: int, x: int|
        0 <= y < e.len() && 0 <= x < e[0].len() ==> (#[trigger] e[y][x]) <= MAX_GRADIENT
}

/// `e` holds exactly the energies of grid `g`.
pub open spec fn energy_matches(e: Seq<Seq<u32>>, g: Seq<Seq<Pixel>>) -> bool {
    &&& e.len() == g.len()
    &&& forall|y: int| 0 <= y < e.len() ==> (#[trigger] e[y]).len() == g[0].len()
    &&& forall|y: int, x: int|
        0 <= y < g.len() && 0 <= x < g[0].len() ==> (#[trigger] e[y][x]) == energy_spec(g, x, y)
}

/// The grid that a sequence of energy rows stands for.
pub open spec fn energy_rows_view(rows: Seq<Vec<u32>>) -> Seq<Seq<u32>> {
    rows.map_values(|q: Vec<u32>| q@)
}

/// The energy of every pixel of one raster snapshot.
pub struct EnergyMatrix {
    rows: Vec<Vec<u32>>,
}

impl View for EnergyMatrix {
    type V = Seq<Seq<u32>>;

    closed spec fn view(&self) -> Seq<Seq<u32>> {
        energy_rows_view(self.rows@)
    }
}

fn gradient(a: Pixel, b: Pixel) -> (r: u32)
    ensures
        r == gradient_spec(a, b),
{
    let dr: u32 = if a.r >= b.r {
        (a.r - b.r) as u32
    } else {
        (b.r - a.r) as u32
    };
    let dg: u32 = if a.g >= b.g {
        (a.g - b.g) as u32
    } else {
        (b.g - a.g) as u32
    };
    let db: u32 = if a.b >= b.b {
        (a.b - b.b) as u32
    } else {
        (b.b - a.b) as u32
    };
    proof {
        assert(dr * dr == sq(a.r - b.r) && dr * dr <= 65025) by (nonlinear_arith)
            requires
                dr <= 255 && (dr == a.r - b.r || dr == b.r - a.r),
        ;
        assert(dg * dg == sq(a.g - b.g) && dg * dg <= 65025) by (nonlinear_arith)
            requires
                dg <= 255 && (dg == a.g - b.g || dg == b.g - a.g),
        ;
        assert(db * db == sq(a.b - b.b) && db * db <= 65025) by (nonlinear_arith)
            requires
                db <= 255 && (db == a.b - b.b || db == b.b - a.b),
        ;
    }
    dr * dr + dg * dg + db * db
}

impl EnergyMatrix {
    /// Every energy matrix that can be handed out is well formed.
    pub open spec fn wf(&self) -> bool {
        energy_wf(self@)
    }

    /// Computes the energy of every pixel of `raster`.
    pub fn new(raster: &Raster) -> (r: EnergyMatrix)
        requires
            raster.wf(),
        ensures
            r.wf(),
            energy_matches(r@, raster@),
    {
        let ghost g = raster@;
        let w = raster.width();
        let h = raster.height();
        let mut rows: Vec<Vec<u32>> = Vec::new();
        let mut y: usize = 0;
        while y < h
            invariant
                0 <= y <= h,
                raster.wf(),
                g == raster@,
                w == g[0].len(),
                h == g.len(),
                rows@.len() == y,
                forall|j: int| 0 <= j < y ==> (#[trigger] rows@[j]@).len() == w,
                forall|j: int, i: int|
                    0 <= j < y && 0 <= i < w ==> (#[trigger] rows@[j]@[i]) == energy_spec(g, i, j),
            decreases h - y,
        {
            let mut row: Vec<u32> = Vec::new();
            let mut x: usize = 0;
            while x < w
                invariant
                    0 <= x <= w,
                    0 <= y < h,
                    raster.wf(),
                    g == raster@,
                    w == g[0].len(),
                    h == g.len(),
                    row@.len() == x,
                    forall|i: int| 0 <= i < x ==> (#[trigger] row@[i]) == energy_spec(g, i, y as int),
                decreases w - x,
            {
                let left = if x == 0 {
                    raster.get(w - 1, y)
                } else {
                    raster.get(x - 1, y)
                };
                let right = if x == w - 1 {
                    raster.get(0, y)
                } else {
                    raster.get(x + 1, y)
                };
                let top = if y == 0 {
                    raster.get(x, h - 1)
                } else {
                    raster.get(x, y - 1)
                };
                let bottom = if y == h - 1 {
                    raster.get(x, 0)
                } else {
                    raster.get(x, y + 1)
                };
                let xg = gradient(left, right);
                let yg = gradient(top, bottom);
                proof {
                    lemma_gradient_bounds(left, right);
                    lemma_gradient_bounds(top, bottom);
                }
                row.push(xg + yg);
                x += 1;
            }
            rows.push(row);
            y += 1;
        }
        let r = EnergyMatrix { rows };
        proof {
            assert forall|j: int, i: int|
                0 <= j < r@.len() && 0 <= i < r@[0].len() implies (#[trigger] r@[j][i])
                <= MAX_GRADIENT by {
                lemma_energy_bounds(g, i, j);
            }
        }
        r
    }

    /// Builds an energy matrix from given rows; rejects an empty grid,
    /// rows of unequal length, and entries above `MAX_GRADIENT`.
    pub fn from_rows(rows: Vec<Vec<u32>>) -> (r: Option<EnergyMatrix>)
        ensures
            r is Some <==> energy_wf(energy_rows_view(rows@)),
            r is Some ==> r->Some_0@ == energy_rows_view(rows@),
    {
        let ghost gv = energy_rows_view(rows@);
        if rows.len() == 0 {
            return None;
        }
        let first = &rows[0];
        let width = first.len();
        if width == 0 {
            assert(gv[0].len() == 0);
            return None;
        }
        let mut y: usize = 0;
        while y < rows.len()
            invariant
                0 <= y <= rows.len(),
                gv == energy_rows_view(rows@),
                width == gv[0].len(),
                width >= 1,
                rows@.len() == gv.len(),
                gv.len() >= 1,
                forall|j: int| 0 <= j < gv.len() ==> (#[trigger] gv[j]) == rows@[j]@,
                forall|j: int| 0 <= j < y ==> (#[trigger] gv[j]).len() == width,
                forall|j: int, i: int|
                    0 <= j < y && 0 <= i < width ==> (#[trigger] gv[j][i]) <= MAX_GRADIENT,
            decreases rows.len() - y,
        {
            let row = &rows[y];
            if row.len() != width {
                assert(gv[y as int].len() != gv[0].len());
                return None;
            }
            let mut x: usize = 0;
            while x < width
                invariant
                    0 <= x <= width,
                    0 <= y < rows.len(),
                    gv == energy_rows_view(rows@),
                    rows@.len() == gv.len(),
                    row == rows@[y as int],
                    row@.len() == width,
                    forall|j: int| 0 <= j < gv.len() ==> (#[trigger] gv[j]) == rows@[j]@,
                    forall|i: int| 0 <= i < x ==> (#[trigger] gv[y as int][i]) <= MAX_GRADIENT,
                decreases width - x,
            {
                if row[x] > MAX_GRADIENT {
                    assert(gv[y as int][x as int] > MAX_GRADIENT);
                    return None;
                }
                x += 1;
            }
            y += 1;
        }
        Some(EnergyMatrix { rows })
    }

    /// The energy of pixel (x, y).
    pub fn get_energy(&self, x: usize, y: usize) -> (r: u32)
        requires
            y < self@.len(),
            x < self@[y as int].len(),
        ensures
            r == self@[y as int][x as int],
    {
        let row = &self.rows[y];
        row[x]
    }

    /// The number of columns, read off the first row.
    pub fn width(&self) -> (r: usize)
        requires
            self@.len() >= 1,
        ensures
            r == self@[0].len(),
    {
        let row = &self.rows[0];
        row.len()
    }

    /// The number of rows.
    pub fn height(&self) -> (r: usize)
        ensures
            r == self@.len(),
    {
        self.rows.len()
    }
}

} // verus!
