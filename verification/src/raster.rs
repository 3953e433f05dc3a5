//! The pixel grid that carving operates on, with its quarter-turn rotations
//! and the shape of a grid after one seam has been deleted.

use vstd::prelude::*;

verus! {

/// One pixel: three 8-bit color channels.
#[derive(Clone, Copy, PartialEq, Eq, Structural, Debug)]
pub struct Pixel {
    pub r: u8,
    pub g: u8,
    pub b: u8,
}

/// A rectangular, non-empty grid of pixels: a sequence of rows, top to
/// bottom, each row left to right, all rows of one length.
pub open spec fn raster_wf(g: Seq<Seq<Pixel>>) -> bool {
    &&& g.len() >= 1
    &&& g[0].len() >= 1
    &&& forall|y: int| 0 <= y < g.len() ==> (#[trigger] g[y]).len() == g[0].len()
}

/// The grid turned a quarter turn clockwise: a row of the source, read top
/// to bottom, becomes a column of the result, read left to right.
pub open spec fn rotate90_spec(g: Seq<Seq<Pixel>>) -> Seq<Seq<Pixel>> {
    Seq::new(g[0].len(), |y: int| Seq::new(g.len(), |x: int| g[g.len() - 1 - x][y]))
}

/// The grid turned a quarter turn counterclockwise; inverse of
/// `rotate90_spec` on well-formed grids.
pub open spec fn rotate270_spec(g: Seq<Seq<Pixel>>) -> Seq<Seq<Pixel>> {
    Seq::new(g[0].len(), |y: int| Seq::new(g.len(), |x: int| g[x][g[0].len() - 1 - y]))
}

/// The grid one column narrower: in row `y`, the pixel in column `seam[y]`
/// is gone, columns left of it keep their place, and columns right of it
/// move one step left.
pub open spec fn remove_seam_spec(g: Seq<Seq<Pixel>>, seam: Seq<int>) -> Seq<Seq<Pixel>> {
    Seq::new(
        g.len(),
        |y: int|
            Seq::new(
                (g[0].len() - 1) as nat,
                |x: int| if x < seam[y] { g[y][x] } else { g[y][x + 1] },
            ),
    )
}

/// Turning a well-formed grid clockwise and then counterclockwise gives the
/// grid back unchanged.
pub proof fn lemma_rotate_roundtrip(g: Seq<Seq<Pixel>>)
    requires
        raster_wf(g),
    ensures
        rotate270_spec(rotate90_spec(g)) == g,
{
    let g2 = rotate90_spec(g);
    assert(g2[0].len() == g.len());
    assert forall|y: int, x: int|
        0 <= y < g.len() && 0 <= x < g[0].len() implies rotate270_spec(g2)[y][x] == g[y][x] by {
        assert(g2[x][g2[0].len() - 1 - y] == g[y][x]);
    }
    assert(rotate270_spec(g2) =~~= g);
}

/// The grid that a sequence of pixel rows stands for.
pub open spec fn rows_view(rows: Seq<Vec<Pixel>>) -> Seq<Seq<Pixel>> {
    rows.map_values(|q: Vec<Pixel>| q@)
}

/// A raster: a non-empty rectangular pixel grid, row-major, origin top left.
#[derive(Clone, Debug, PartialEq, Eq)]
pub struct Raster {
    rows: Vec<Vec<Pixel>>,
}

impl View for Raster {
    type V = Seq<Seq<Pixel>>;

    closed spec fn view(&self) -> Seq<Seq<Pixel>> {
        rows_view(self.rows@)
    }
}

impl Raster {
    /// Every raster that can be handed out is a well-formed grid.
    pub open spec fn wf(&self) -> bool {
        raster_wf(self@)
    }

    /// Builds a raster from rows of pixels; rejects an empty grid and
    /// rows of unequal length.
    pub fn new(rows: Vec<Vec<Pixel>>) -> (r: Option<Raster>)
        ensures
            r is Some <==> raster_wf(rows_view(rows@)),
            r is Some ==> r->Some_0@ == rows_view(rows@),
    {
        let ghost gv = rows_view(rows@);
        if rows.len() == 0 {
            return None;
        }
        let width = rows[0].len();
        if width == 0 {
            assert(gv[0].len() == 0);
            return None;
        }
        let mut y: usize = 1;
        while y < rows.len()
            invariant
                1 <= y <= rows.len(),
                gv == rows_view(rows@),
                width == gv[0].len(),
                rows@.len() == gv.len(),
                forall|j: int| 0 <= j < gv.len() ==> (#[trigger] gv[j]) == rows@[j]@,
                forall|j: int| 0 <= j < y ==> (#[trigger] gv[j]).len() == width,
            decreases rows.len() - y,
        {
            let row = &rows[y];
            if row.len() != width {
                assert(gv[y as int].len() != gv[0].len());
                return None;
            }
            y += 1;
        }
        Some(Raster { rows })
    }

    /// Wraps rows already known to form a well-formed grid.
    pub(crate) fn from_rows(rows: Vec<Vec<Pixel>>) -> (r: Raster)
        requires
            raster_wf(rows_view(rows@)),
        ensures
            r@ == rows_view(rows@),
    {
        Raster { rows }
    }

    /// The number of rows.
    pub fn height(&self) -> (r: usize)
        ensures
            r == self@.len(),
    {
        self.rows.len()
    }

    /// The number of columns, read off the first row.
    pub fn width(&self) -> (r: usize)
        requires
            self@.len() >= 1,
        ensures
            r == self@[0].len(),
    {
        let row = &self.rows[0];
        row.len()
    }

    /// The pixel in column `x` of row `y`.
    pub fn get(&self, x: usize, y: usize) -> (r: Pixel)
        requires
            y < self@.len(),
            x < self@[y as int].len(),
        ensures
            r == self@[y as int][x as int],
    {
        let row = &self.rows[y];
        row[x]
    }

    /// The raster turned a quarter turn clockwise.
    pub fn rotated90(&self) -> (r: Raster)
        requires
            self.wf(),
        ensures
            r.wf(),
            r@ == rotate90_spec(self@),
    {
        let w = self.width();
        let h = self.height();
        let mut out: Vec<Vec<Pixel>> = Vec::new();
        let mut y: usize = 0;
        while y < w
            invariant
                0 <= y <= w,
                self.wf(),
                w == self@[0].len(),
                h == self@.len(),
                out@.len() == y,
                forall|j: int, i: int|
                    0 <= j < y && 0 <= i < h ==> (#[trigger] out@[j]@[i]) == self@[h - 1 - i][j],
                forall|j: int| 0 <= j < y ==> (#[trigger] out@[j]@).len() == h,
            decreases w - y,
        {
            let mut row: Vec<Pixel> = Vec::new();
            let mut x: usize = 0;
            while x < h
                invariant
                    0 <= x <= h,
                    0 <= y < w,
                    self.wf(),
                    w == self@[0].len(),
                    h == self@.len(),
                    row@.len() == x,
                    forall|i: int| 0 <= i < x ==> (#[trigger] row@[i]) == self@[h - 1 - i][y as int],
                decreases h - x,
            {
                row.push(self.get(y, h - 1 - x));
                x += 1;
            }
            out.push(row);
            y += 1;
        }
        let r = Raster { rows: out };
        assert(r@ =~~= rotate90_spec(self@));
        r
    }

    /// The raster turned a quarter turn counterclockwise.
    pub fn rotated270(&self) -> (r: Raster)
        requires
            self.wf(),
        ensures
            r.wf(),
            r@ == rotate270_spec(self@),
    {
        let w = self.width();
        let h = self.height();
        let mut out: Vec<Vec<Pixel>> = Vec::new();
        let mut y: usize = 0;
        while y < w
            invariant
                0 <= y <= w,
                self.wf(),
                w == self@[0].len(),
                h == self@.len(),
                out@.len() == y,
                forall|j: int, i: int|
                    0 <= j < y && 0 <= i < h ==> (#[trigger] out@[j]@[i]) == self@[i][w - 1 - j],
                forall|j: int| 0 <= j < y ==> (#[trigger] out@[j]@).len() == h,
            decreases w - y,
        {
            let mut row: Vec<Pixel> = Vec::new();
            let mut x: usize = 0;
            while x < h
                invariant
                    0 <= x <= h,
                    0 <= y < w,
                    self.wf(),
                    w == self@[0].len(),
                    h == self@.len(),
                    row@.len() == x,
                    forall|i: int| 0 <= i < x ==> (#[trigger] row@[i]) == self@[i][w - 1 - y],
                decreases h - x,
            {
                row.push(self.get(w - 1 - y, x));
                x += 1;
            }
            out.push(row);
            y += 1;
        }
        let r = Raster { rows: out };
        assert(r@ =~~= rotate270_spec(self@));
        r
    }
}

} // verus!
