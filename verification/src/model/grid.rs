//! Flat uniform bucket grid over the vertices of a polyline, for
//! constant-time nearest-neighbour candidate lookup.

use vstd::prelude::*;
use vstd::array::*;
use crate::math::coord_in_range;
use crate::model::points::{Point, point_in_range, points_in_range};
use crate::model::reference::ReferenceTrack;
use crate::errors::service_errors::{ServiceError, ServiceErrorType};

verus! {

/// A slice descriptor into `Grid::indices`: the bucket of one cell.
#[derive(Clone, Copy, Debug, PartialEq, Eq, Structural)]
pub struct GridCell {
    pub start: usize,
    pub count: usize,
}

/// Flat uniform grid over the bounding box of a polyline. `min_x`,
/// `min_y` and `cell_size` are millimetres; cell `(cx, cy)` covers
/// the square of side `cell_size` at offset `(cx, cy) * cell_size`
/// from the minimum corner.
#[derive(Clone, Debug)]
pub struct Grid {
    pub min_x: i64,
    pub min_y: i64,
    pub cell_size: i64,
    pub width: usize,
    pub height: usize,
    pub cells: Vec<GridCell>,
    pub indices: Vec<u32>,
}

/// Truncating division for a nonnegative dividend and positive
/// divisor.
pub open spec fn fdiv(a: int, b: int) -> int {
    a / b
}

/// The grid cell a point at `(x, y)` falls into, clamped to the
/// grid: first the column and row offsets are truncated toward zero,
/// then clamped to the grid dimensions.
pub open spec fn cell_of(
    min_x: int,
    min_y: int,
    cell_size: int,
    width: int,
    height: int,
    x: int,
    y: int,
) -> int {
    let dx = x - min_x;
    let dy = y - min_y;
    let cx = if dx <= 0 {
        0
    } else {
        let q = fdiv(dx, cell_size);
        if q >= width - 1 {
            width - 1
        } else {
            q
        }
    };
    let cy = if dy <= 0 {
        0
    } else {
        let q = fdiv(dy, cell_size);
        if q >= height - 1 {
            height - 1
        } else {
            q
        }
    };
    cy * width + cx
}

impl Grid {
    /// The grid cell a point at `(x, y)` falls into.
    pub open spec fn spec_cell_of(&self, x: int, y: int) -> int {
        cell_of(
            self.min_x as int,
            self.min_y as int,
            self.cell_size as int,
            self.width as int,
            self.height as int,
            x,
            y,
        )
    }

    /// Structural well-formedness: the cells partition `indices` into
    /// consecutive runs in cell order.
    pub open spec fn cells_partition(&self) -> bool {
        &&& self.width >= 1
        &&& self.height >= 1
        &&& self.cell_size >= 1
        &&& self.width * self.height == self.cells@.len()
        &&& self.cells@.len() >= 1
        &&& self.cells@[0].start == 0
        &&& forall|c: int|
            0 <= c < self.cells@.len() - 1 ==> (#[trigger] self.cells@[c + 1].start) == self.cells@[
                c
            ].start + self.cells@[c].count
        &&& self.cells@[self.cells@.len() - 1].start + self.cells@[self.cells@.len() - 1].count
            == self.indices@.len()
    }

    /// Index `i` is listed in the bucket of cell `c`.
    pub open spec fn listed_in_cell(&self, c: int, i: u32) -> bool {
        exists|p: int|
            self.cells@[c].start <= p < self.cells@[c].start + self.cells@[c].count
                && (#[trigger] self.indices@[p]) == i
    }

    /// The grid indexes the polyline `pts`: every stored index is a
    /// vertex of `pts`, every vertex is listed in the cell it falls
    /// into, and buckets list indices in increasing order.
    pub open spec fn wf<T: Point>(&self, pts: Seq<T>) -> bool {
        &&& self.cells_partition()
        &&& self.indices@.len() == pts.len()
        &&& forall|p: int|
            0 <= p < self.indices@.len() ==> (#[trigger] self.indices@[p]) < pts.len()
        &&& forall|i: int|
            0 <= i < pts.len() ==> self.listed_in_cell(
                self.spec_cell_of(pts[i].sx(), pts[i].sy()),
                i as u32,
            )
    }

    /// Bounds under which cell arithmetic cannot overflow.
    pub open spec fn dims_in_range(&self) -> bool {
        &&& 1 <= self.width <= 46340
        &&& 1 <= self.height <= 46340
        &&& coord_in_range(self.min_x as int)
        &&& coord_in_range(self.min_y as int)
        &&& 1 <= self.cell_size <= 2_000_000_000
    }

    /// The clamped cell of `(x, y)`, exactly `spec_cell_of`.
    pub fn cell_index(&self, x: i64, y: i64) -> (c: usize)
        requires
            self.cells_partition(),
            self.dims_in_range(),
            coord_in_range(x as int),
            coord_in_range(y as int),
        ensures
            c == self.spec_cell_of(x as int, y as int),
            c < self.cells@.len(),
    {
        let dx: i64 = x - self.min_x;
        let dy: i64 = y - self.min_y;
        let cx: usize = if dx <= 0 {
            0
        } else {
            let q: i64 = dx / self.cell_size;
            if q >= self.width as i64 - 1 {
                self.width - 1
            } else {
                q as usize
            }
        };
        let cy: usize = if dy <= 0 {
            0
        } else {
            let q: i64 = dy / self.cell_size;
            if q >= self.height as i64 - 1 {
                self.height - 1
            } else {
                q as usize
            }
        };
        proof {
            lemma_cell_in_grid(self.width as int, self.height as int, cx as int, cy as int);
            assert((self.width as int) * (self.height as int) <= 2_147_395_600)
                by (nonlinear_arith)
                requires
                    self.width <= 46340,
                    self.height <= 46340,
            ;
        }
        cy * self.width + cx
    }

    /// Fills `out` with the Moore neighbourhood of `cell`, row by row
    /// from the lower to the upper neighbour row, left to right in
    /// each row; out-of-range neighbours are replaced by `cell`
    /// itself.
    pub fn neighbors(&self, cell: usize, out: &mut [usize; 9])
        requires
            self.cells_partition(),
            self.dims_in_range(),
            cell < self.cells@.len(),
        ensures
            forall|k: int| 0 <= k < 9 ==> (#[trigger] final(out)@[k]) == self.spec_neighbor(cell as int, k),
            forall|k: int| 0 <= k < 9 ==> (#[trigger] final(out)@[k]) < self.cells@.len(),
    {
        proof {
            assert(self.width * self.height == self.cells@.len());
            lemma_cell_coords(self.width as int, self.height as int, cell as int);
        }
        let iw = self.width;
        let ih = self.height;
        let x = cell % iw;
        let y = cell / iw;

        let mut i: usize = 0;
        let mut ny_off: i64 = -1;
        while ny_off <= 1
            invariant
                self.cells_partition(),
                self.dims_in_range(),
                cell < self.cells@.len(),
                iw == self.width,
                ih == self.height,
                x == cell as int % iw as int,
                y == cell as int / iw as int,
                x < iw,
                y < ih,
                -1 <= ny_off <= 2,
                i == 3 * (ny_off + 1),
                forall|k: int| 0 <= k < i ==> (#[trigger] out@[k]) == self.spec_neighbor(cell as int, k),
                forall|k: int| 0 <= k < i ==> (#[trigger] out@[k]) < self.cells@.len(),
            decreases 2 - ny_off,
        {
            let mut nx_off: i64 = -1;
            while nx_off <= 1
                invariant
                    self.cells_partition(),
                    self.dims_in_range(),
                    cell < self.cells@.len(),
                    iw == self.width,
                    ih == self.height,
                    x == cell as int % iw as int,
                    y == cell as int / iw as int,
                    x < iw,
                    y < ih,
                    -1 <= ny_off <= 1,
                    -1 <= nx_off <= 2,
                    i == 3 * (ny_off + 1) + (nx_off + 1),
                    forall|k: int| 0 <= k < i ==> (#[trigger] out@[k]) == self.spec_neighbor(cell as int, k),
                    forall|k: int| 0 <= k < i ==> (#[trigger] out@[k]) < self.cells@.len(),
                decreases 2 - nx_off,
            {
                let nx: i64 = x as i64 + nx_off;
                let ny: i64 = y as i64 + ny_off;
                let v: usize = if nx >= 0 && nx < iw as i64 && ny >= 0 && ny < ih as i64 {
                    proof {
                        lemma_cell_in_grid(iw as int, ih as int, nx as int, ny as int);
            assert((self.width as int) * (self.height as int) <= 2_147_395_600)
                by (nonlinear_arith)
                requires
                    self.width <= 46340,
                    self.height <= 46340,
            ;
                    }
                    (ny as usize) * iw + nx as usize
                } else {
                    cell
                };
                out.set(i, v);
                i += 1;
                nx_off += 1;
            }
            ny_off += 1;
        }
    }

    /// The `k`-th entry of the Moore neighbourhood of `cell`, in the
    /// enumeration order of `neighbors`.
    pub open spec fn spec_neighbor(&self, cell: int, k: int) -> int {
        let x = cell % (self.width as int);
        let y = cell / (self.width as int);
        let nx = x + (k % 3) - 1;
        let ny = y + (k / 3) - 1;
        if 0 <= nx < self.width && 0 <= ny < self.height {
            ny * self.width + nx
        } else {
            cell
        }
    }
}

/// A cell coordinate pair inside the grid dimensions maps to a cell
/// number inside the cell vector.
pub proof fn lemma_cell_in_grid(w: int, h: int, cx: int, cy: int)
    requires
        w >= 1,
        h >= 1,
        0 <= cx < w,
        0 <= cy < h,
    ensures
        0 <= cy * w,
        cy * w + cx < w * h,
{
    assert(cy * w + cx < w * h) by (nonlinear_arith)
        requires
            w >= 1,
            h >= 1,
            0 <= cx < w,
            0 <= cy < h,
    ;
    assert(cy * w >= 0) by (nonlinear_arith)
        requires
            w >= 1,
            cy >= 0,
    ;
}

/// A cell number inside the cell vector decomposes into coordinates
/// inside the grid dimensions.
pub proof fn lemma_cell_coords(w: int, h: int, cell: int)
    requires
        w >= 1,
        h >= 1,
        0 <= cell < w * h,
    ensures
        0 <= cell % w < w,
        0 <= cell / w < h,
        cell == (cell / w) * w + cell % w,
{
    vstd::arithmetic::div_mod::lemma_fundamental_div_mod(cell, w);
    vstd::arithmetic::div_mod::lemma_mod_bound(cell, w);
    vstd::arithmetic::div_mod::lemma_div_pos_is_pos(cell, w);
    assert((cell / w) * w == w * (cell / w)) by (nonlinear_arith);
    if cell / w >= h {
        assert((cell / w) * w >= h * w) by (nonlinear_arith)
            requires
                w >= 1,
                cell / w >= h,
        ;
        assert(cell >= h * w);
        assert(h * w == w * h) by (nonlinear_arith);
    }
}

/// Minimum x coordinate over the first `n` points.
pub open spec fn spec_min_x<T: Point>(s: Seq<T>, n: int) -> int
    decreases n,
{
    if n <= 1 {
        s[0].sx()
    } else {
        let m = spec_min_x(s, n - 1);
        if s[n - 1].sx() < m {
            s[n - 1].sx()
        } else {
            m
        }
    }
}

/// Minimum y coordinate over the first `n` points.
pub open spec fn spec_min_y<T: Point>(s: Seq<T>, n: int) -> int
    decreases n,
{
    if n <= 1 {
        s[0].sy()
    } else {
        let m = spec_min_y(s, n - 1);
        if s[n - 1].sy() < m {
            s[n - 1].sy()
        } else {
            m
        }
    }
}

/// Maximum x coordinate over the first `n` points.
pub open spec fn spec_max_x<T: Point>(s: Seq<T>, n: int) -> int
    decreases n,
{
    if n <= 1 {
        s[0].sx()
    } else {
        let m = spec_max_x(s, n - 1);
        if s[n - 1].sx() > m {
            s[n - 1].sx()
        } else {
            m
        }
    }
}

/// Maximum y coordinate over the first `n` points.
pub open spec fn spec_max_y<T: Point>(s: Seq<T>, n: int) -> int
    decreases n,
{
    if n <= 1 {
        s[0].sy()
    } else {
        let m = spec_max_y(s, n - 1);
        if s[n - 1].sy() > m {
            s[n - 1].sy()
        } else {
            m
        }
    }
}

/// The bounding box encloses every point of the prefix, and its
/// corners are coordinates of points of the prefix.
pub proof fn lemma_bbox<T: Point>(s: Seq<T>, n: int)
    requires
        1 <= n <= s.len(),
    ensures
        forall|j: int|
            0 <= j < n ==> spec_min_x(s, n) <= (#[trigger] s[j]).sx() <= spec_max_x(s, n),
        forall|j: int|
            0 <= j < n ==> spec_min_y(s, n) <= (#[trigger] s[j]).sy() <= spec_max_y(s, n),
        exists|j: int| 0 <= j < n && (#[trigger] s[j]).sx() == spec_min_x(s, n),
        exists|j: int| 0 <= j < n && (#[trigger] s[j]).sy() == spec_min_y(s, n),
        exists|j: int| 0 <= j < n && (#[trigger] s[j]).sx() == spec_max_x(s, n),
        exists|j: int| 0 <= j < n && (#[trigger] s[j]).sy() == spec_max_y(s, n),
    decreases n,
{
    if n == 1 {
        assert(s[0].sx() == spec_min_x(s, n));
        assert(s[0].sy() == spec_min_y(s, n));
        assert(s[0].sx() == spec_max_x(s, n));
        assert(s[0].sy() == spec_max_y(s, n));
    } else {
        lemma_bbox(s, n - 1);
        if s[n - 1].sx() < spec_min_x(s, n - 1) {
            assert(s[n - 1].sx() == spec_min_x(s, n));
        } else {
            let j = choose|j: int| 0 <= j < n - 1 && (#[trigger] s[j]).sx() == spec_min_x(s, n - 1);
            assert(s[j].sx() == spec_min_x(s, n));
        }
        if s[n - 1].sy() < spec_min_y(s, n - 1) {
            assert(s[n - 1].sy() == spec_min_y(s, n));
        } else {
            let j = choose|j: int| 0 <= j < n - 1 && (#[trigger] s[j]).sy() == spec_min_y(s, n - 1);
            assert(s[j].sy() == spec_min_y(s, n));
        }
        if s[n - 1].sx() > spec_max_x(s, n - 1) {
            assert(s[n - 1].sx() == spec_max_x(s, n));
        } else {
            let j = choose|j: int| 0 <= j < n - 1 && (#[trigger] s[j]).sx() == spec_max_x(s, n - 1);
            assert(s[j].sx() == spec_max_x(s, n));
        }
        if s[n - 1].sy() > spec_max_y(s, n - 1) {
            assert(s[n - 1].sy() == spec_max_y(s, n));
        } else {
            let j = choose|j: int| 0 <= j < n - 1 && (#[trigger] s[j]).sy() == spec_max_y(s, n - 1);
            assert(s[j].sy() == spec_max_y(s, n));
        }
    }
}

/// The number of grid columns for a span and cell size: the span in
/// cells, rounded up, plus one cell of padding.
pub open spec fn spec_grid_dim(span: int, cell_size: int) -> int {
    (span + cell_size - 1) / cell_size + 1
}

/// Total length of the buckets before `upto`.
pub open spec fn sum_lens(bs: Seq<Vec<u32>>, upto: int) -> int
    decreases upto,
{
    if upto <= 0 {
        0
    } else {
        sum_lens(bs, upto - 1) + bs[upto - 1]@.len()
    }
}

/// `sum_lens` only reads the buckets before `upto`.
pub proof fn lemma_sum_lens_agree(bs1: Seq<Vec<u32>>, bs2: Seq<Vec<u32>>, n: int)
    requires
        n <= bs1.len(),
        n <= bs2.len(),
        forall|j: int| 0 <= j < n ==> bs1[j] == bs2[j],
    ensures
        sum_lens(bs1, n) == sum_lens(bs2, n),
    decreases n,
{
    if n > 0 {
        lemma_sum_lens_agree(bs1, bs2, n - 1);
    }
}

/// Replacing one bucket changes the total by the length difference.
pub proof fn lemma_sum_lens_update(bs: Seq<Vec<u32>>, c: int, v: Vec<u32>, n: int)
    requires
        0 <= c < n <= bs.len(),
    ensures
        sum_lens(bs.update(c, v), n) == sum_lens(bs, n) - bs[c]@.len() + v@.len(),
    decreases n,
{
    let t = bs.update(c, v);
    if c == n - 1 {
        lemma_sum_lens_agree(t, bs, n - 1);
    } else {
        lemma_sum_lens_update(bs, c, v, n - 1);
    }
}

/// Bucket totals grow along the cells.
pub proof fn lemma_sum_lens_mono(bs: Seq<Vec<u32>>, n1: int, n2: int)
    requires
        n1 <= n2,
    ensures
        sum_lens(bs, n1) <= sum_lens(bs, n2),
    decreases n2 - n1,
{
    if n1 < n2 {
        lemma_sum_lens_mono(bs, n1, n2 - 1);
    }
}

/// An empty set of buckets has total length zero.
pub proof fn lemma_sum_lens_empty(bs: Seq<Vec<u32>>, n: int)
    requires
        forall|j: int| 0 <= j < n ==> (#[trigger] bs[j])@.len() == 0,
        n <= bs.len(),
    ensures
        sum_lens(bs, n) == 0,
    decreases n,
{
    if n > 0 {
        lemma_sum_lens_empty(bs, n - 1);
    }
}

/// The cell of point `j` of the polyline, for a grid with the given
/// frame.
pub open spec fn pcell<T: Point>(
    s: Seq<T>,
    j: int,
    min_x: int,
    min_y: int,
    cell_size: int,
    width: int,
    height: int,
) -> int {
    cell_of(min_x, min_y, cell_size, width, height, s[j].sx(), s[j].sy())
}


/// The clamped cell computation always lands inside the grid.
pub proof fn lemma_cell_of_range(
    min_x: int,
    min_y: int,
    cell_size: int,
    width: int,
    height: int,
    x: int,
    y: int,
)
    requires
        width >= 1,
        height >= 1,
        cell_size >= 1,
    ensures
        0 <= cell_of(min_x, min_y, cell_size, width, height, x, y) < width * height,
{
    let dx = x - min_x;
    let dy = y - min_y;
    let cx = if dx <= 0 {
        0
    } else {
        let q = fdiv(dx, cell_size);
        if q >= width - 1 {
            width - 1
        } else {
            q
        }
    };
    let cy = if dy <= 0 {
        0
    } else {
        let q = fdiv(dy, cell_size);
        if q >= height - 1 {
            height - 1
        } else {
            q
        }
    };
    if dx > 0 {
        vstd::arithmetic::div_mod::lemma_div_pos_is_pos(dx, cell_size);
    }
    if dy > 0 {
        vstd::arithmetic::div_mod::lemma_div_pos_is_pos(dy, cell_size);
    }
    lemma_cell_in_grid(width, height, cx, cy);
}


/// Every cell's slice descriptor stays inside the packed index
/// vector.
pub proof fn lemma_cell_slice_in_bounds(g: &Grid, c: int)
    requires
        g.cells_partition(),
        0 <= c < g.cells@.len(),
    ensures
        g.cells@[c].start + g.cells@[c].count <= g.indices@.len(),
    decreases g.cells@.len() - c,
{
    if c == g.cells@.len() - 1 {
    } else {
        lemma_cell_slice_in_bounds(g, c + 1);
        assert(g.cells@[c + 1].start == g.cells@[c].start + g.cells@[c].count);
    }
}

/// Point `j` is listed in bucket `c`.
pub open spec fn in_bucket(bs: Seq<Vec<u32>>, c: int, j: int) -> bool {
    exists|p: int| 0 <= p < bs[c]@.len() && (#[trigger] bs[c]@[p]) as int == j
}

/// Extracts the bucket position a listed point sits at.
pub proof fn lemma_in_bucket_witness(bs: Seq<Vec<u32>>, c: int, j: int) -> (p: int)
    requires
        in_bucket(bs, c, j),
    ensures
        0 <= p < bs[c]@.len(),
        bs[c]@[p] as int == j,
{
    choose|p: int| 0 <= p < bs[c]@.len() && (#[trigger] bs[c]@[p]) as int == j
}

impl Grid {
    /// Builds the grid over a polyline; each cell covers a square of
    /// side `cell_size` millimetres. Fails exactly when the
    /// polyline's bounding box needs more columns or rows than the
    /// grid admits.
    pub fn from_points<T: Point>(pts: &Vec<T>, cell_size: i64) -> (r: Result<Grid, ServiceError>)
        requires
            1 <= pts@.len() <= 0xFFFF_FFFF,
            points_in_range(pts@),
            1 <= cell_size <= 2_000_000_000,
        ensures
            match r {
                Result::Ok(g) => {
                    &&& g.wf(pts@)
                    &&& g.dims_in_range()
                    &&& g.cell_size == cell_size
                    &&& g.min_x as int == spec_min_x(pts@, pts@.len() as int)
                    &&& g.min_y as int == spec_min_y(pts@, pts@.len() as int)
                    &&& g.width as int == spec_grid_dim(
                        spec_max_x(pts@, pts@.len() as int) - spec_min_x(pts@, pts@.len() as int),
                        cell_size as int,
                    )
                    &&& g.height as int == spec_grid_dim(
                        spec_max_y(pts@, pts@.len() as int) - spec_min_y(pts@, pts@.len() as int),
                        cell_size as int,
                    )
                    &&& forall|c: int, p1: int, p2: int|
                        #![trigger g.indices@[p1], g.indices@[p2], g.cells@[c]]
                        0 <= c < g.cells@.len() && g.cells@[c].start <= p1 < p2 < g.cells@[c].start
                            + g.cells@[c].count ==> g.indices@[p1] < g.indices@[p2]
                },
                Result::Err(e) => {
                    &&& (spec_grid_dim(
                        spec_max_x(pts@, pts@.len() as int) - spec_min_x(pts@, pts@.len() as int),
                        cell_size as int,
                    ) > 46340 || spec_grid_dim(
                        spec_max_y(pts@, pts@.len() as int) - spec_min_y(pts@, pts@.len() as int),
                        cell_size as int,
                    ) > 46340)
                    &&& e.etype matches ServiceErrorType::InvalidData(_)
                },
            },
    {
        let n = pts.len();

        // Bounding box over the polyline.
        let mut min_x: i64 = pts[0].x();
        let mut min_y: i64 = pts[0].y();
        let mut max_x: i64 = pts[0].x();
        let mut max_y: i64 = pts[0].y();
        let mut i: usize = 1;
        while i < n
            invariant
                1 <= i <= n,
                n == pts@.len(),
                points_in_range(pts@),
                min_x as int == spec_min_x(pts@, i as int),
                min_y as int == spec_min_y(pts@, i as int),
                max_x as int == spec_max_x(pts@, i as int),
                max_y as int == spec_max_y(pts@, i as int),
            decreases n - i,
        {
            let vx = pts[i].x();
            let vy = pts[i].y();
            if vx < min_x {
                min_x = vx;
            }
            if vy < min_y {
                min_y = vy;
            }
            if vx > max_x {
                max_x = vx;
            }
            if vy > max_y {
                max_y = vy;
            }
            i += 1;
        }
        proof {
            lemma_bbox(pts@, n as int);
            let j1 = choose|j: int|
                0 <= j < n && (#[trigger] pts@[j]).sx() == spec_min_x(pts@, n as int);
            assert(point_in_range(pts@[j1]));
            let j2 = choose|j: int|
                0 <= j < n && (#[trigger] pts@[j]).sy() == spec_min_y(pts@, n as int);
            assert(point_in_range(pts@[j2]));
            let j3 = choose|j: int|
                0 <= j < n && (#[trigger] pts@[j]).sx() == spec_max_x(pts@, n as int);
            assert(point_in_range(pts@[j3]));
            let j4 = choose|j: int|
                0 <= j < n && (#[trigger] pts@[j]).sy() == spec_max_y(pts@, n as int);
            assert(point_in_range(pts@[j4]));
        }

        // Grid dimensions, one padding cell past the rounded-up span.
        let span_x: i64 = max_x - min_x;
        let span_y: i64 = max_y - min_y;
        let w64: i64 = (span_x + cell_size - 1) / cell_size + 1;
        let h64: i64 = (span_y + cell_size - 1) / cell_size + 1;
        if w64 > 46340 || h64 > 46340 {
            return Result::Err(
                ServiceError::invalid_data(
                    "track bounding box is too wide for the chosen cell size",
                ),
            );
        }
        let width: usize = w64 as usize;
        let height: usize = h64 as usize;
        proof {
            assert((width as int) * (height as int) <= 2_147_395_600) by (nonlinear_arith)
                requires
                    1 <= width <= 46340,
                    1 <= height <= 46340,
            ;
        }
        let cell_count: usize = width * height;

        // Empty buckets, one per cell.
        let mut buckets: Vec<Vec<u32>> = Vec::new();
        let mut c: usize = 0;
        while c < cell_count
            invariant
                c <= cell_count,
                buckets@.len() == c,
                forall|j: int| 0 <= j < c ==> (#[trigger] buckets@[j])@.len() == 0,
            decreases cell_count - c,
        {
            buckets.push(Vec::new());
            c += 1;
        }
        proof {
            lemma_sum_lens_empty(buckets@, cell_count as int);
        }

        // Distribute the vertices over the buckets.
        let ghost gminx = min_x as int;
        let ghost gminy = min_y as int;
        let ghost gcs = cell_size as int;
        let ghost gw = width as int;
        let ghost gh = height as int;
        let mut i2: usize = 0;
        while i2 < n
            invariant
                i2 <= n,
                n == pts@.len(),
                n <= 0xFFFF_FFFF,
                points_in_range(pts@),
                1 <= cell_size <= 2_000_000_000,
                coord_in_range(min_x as int),
                coord_in_range(min_y as int),
                1 <= width <= 46340,
                1 <= height <= 46340,
                cell_count == width * height,
                buckets@.len() == cell_count,
                gminx == min_x as int,
                gminy == min_y as int,
                gcs == cell_size as int,
                gw == width as int,
                gh == height as int,
                sum_lens(buckets@, cell_count as int) == i2,
                forall|cc: int, q1: int, q2: int|
                    #![trigger buckets@[cc]@[q1], buckets@[cc]@[q2]]
                    0 <= cc < cell_count && 0 <= q1 < q2 < buckets@[cc]@.len() ==> buckets@[cc]@[q1]
                        < buckets@[cc]@[q2],
                forall|cc: int, p: int|
                    0 <= cc < cell_count && 0 <= p < buckets@[cc]@.len() ==> (
                    #[trigger] buckets@[cc]@[p]) < i2 && pcell(
                        pts@,
                        buckets@[cc]@[p] as int,
                        gminx,
                        gminy,
                        gcs,
                        gw,
                        gh,
                    ) == cc,
                forall|j: int|
                    0 <= j < i2 ==> #[trigger] in_bucket(
                        buckets@,
                        pcell(pts@, j, gminx, gminy, gcs, gw, gh),
                        j,
                    ),
            decreases n - i2,
        {
            let px = pts[i2].x();
            let py = pts[i2].y();
            let dx: i64 = px - min_x;
            let dy: i64 = py - min_y;
            let cx: usize = if dx <= 0 {
                0
            } else {
                let q: i64 = dx / cell_size;
                if q >= width as i64 - 1 {
                    width - 1
                } else {
                    q as usize
                }
            };
            let cy: usize = if dy <= 0 {
                0
            } else {
                let q: i64 = dy / cell_size;
                if q >= height as i64 - 1 {
                    height - 1
                } else {
                    q as usize
                }
            };
            proof {
                lemma_cell_in_grid(width as int, height as int, cx as int, cy as int);
                assert((width as int) * (height as int) <= 2_147_395_600) by (nonlinear_arith)
                    requires
                        1 <= width <= 46340,
                        1 <= height <= 46340,
                ;
            }
            let cell: usize = cy * width + cx;
            proof {
                assert(cell as int == pcell(pts@, i2 as int, gminx, gminy, gcs, gw, gh));
            }
            let ghost old_buckets = buckets@;
            buckets[cell].push(i2 as u32);
            proof {
                assert(buckets@[cell as int]@ == old_buckets[cell as int]@.push(i2 as u32));
                assert(buckets@ =~= old_buckets.update(cell as int, buckets@[cell as int]));
                lemma_sum_lens_update(
                    old_buckets,
                    cell as int,
                    buckets@[cell as int],
                    cell_count as int,
                );
                assert forall|cc: int, q1: int, q2: int|
                    #![trigger buckets@[cc]@[q1], buckets@[cc]@[q2]]
                    0 <= cc < cell_count && 0 <= q1 < q2 < buckets@[cc]@.len() implies buckets@[
                cc]@[q1] < buckets@[cc]@[q2] by {
                    if cc == cell as int && q2 == buckets@[cc]@.len() - 1 {
                        assert(buckets@[cc]@[q1] == old_buckets[cc]@[q1]);
                        assert(old_buckets[cc]@[q1] < i2);
                    } else {
                        assert(buckets@[cc]@[q1] == old_buckets[cc]@[q1]);
                        assert(buckets@[cc]@[q2] == old_buckets[cc]@[q2]);
                    }
                }
                assert forall|j: int|
                    0 <= j < i2 + 1 implies #[trigger] in_bucket(
                    buckets@,
                    pcell(pts@, j, gminx, gminy, gcs, gw, gh),
                    j,
                ) by {
                    let cj = pcell(pts@, j, gminx, gminy, gcs, gw, gh);
                    lemma_cell_of_range(gminx, gminy, gcs, gw, gh, pts@[j].sx(), pts@[j].sy());
                    assert((width as int) * (height as int) == cell_count) by (nonlinear_arith)
                        requires
                            cell_count == width * height,
                    ;
                    if j == i2 as int {
                        let pnew = buckets@[cj]@.len() - 1;
                        assert(buckets@[cj]@[pnew] as int == j);
                    } else {
                        let p = lemma_in_bucket_witness(old_buckets, cj, j);
                        assert(buckets@[cj]@[p] as int == j);
                    }
                }
            }
            i2 += 1;
        }

        // Flatten the buckets into slice descriptors and one packed
        // index vector.
        let mut cells: Vec<GridCell> = Vec::new();
        let mut indices: Vec<u32> = Vec::new();
        let mut offset: usize = 0;
        let mut c2: usize = 0;
        while c2 < cell_count
            invariant
                c2 <= cell_count,
                n == pts@.len(),
                n <= 0xFFFF_FFFF,
                cell_count == width * height,
                buckets@.len() == cell_count,
                sum_lens(buckets@, cell_count as int) == n,
                forall|cc: int, p: int|
                    0 <= cc < cell_count && 0 <= p < buckets@[cc]@.len() ==> (
                    #[trigger] buckets@[cc]@[p]) < n,
                forall|cc: int, q1: int, q2: int|
                    #![trigger buckets@[cc]@[q1], buckets@[cc]@[q2]]
                    0 <= cc < cell_count && 0 <= q1 < q2 < buckets@[cc]@.len() ==> buckets@[cc]@[q1]
                        < buckets@[cc]@[q2],
                cells@.len() == c2,
                offset == sum_lens(buckets@, c2 as int),
                indices@.len() == offset,
                forall|cc: int|
                    0 <= cc < c2 ==> (#[trigger] cells@[cc]).count == buckets@[cc]@.len()
                        && cells@[cc].start == sum_lens(buckets@, cc)
                        && cells@[cc].start + cells@[cc].count <= offset,
                forall|cc: int, p: int|
                    #![trigger cells@[cc], buckets@[cc]@[p]]
                    0 <= cc < c2 && 0 <= p < buckets@[cc]@.len() ==> indices@[cells@[cc].start + p]
                        == buckets@[cc]@[p],
                forall|p: int|
                    0 <= p < indices@.len() ==> (#[trigger] indices@[p]) < n,
            decreases cell_count - c2,
        {
            let count = buckets[c2].len();
            proof {
                lemma_sum_lens_mono(buckets@, c2 as int + 1, cell_count as int);
                assert(sum_lens(buckets@, c2 as int + 1) == offset + count);
            }
            let ghost old_cells = cells@;
            cells.push(GridCell { start: offset, count });
            let mut p2: usize = 0;
            while p2 < count
                invariant
                    p2 <= count,
                    n <= 0xFFFF_FFFF,
                    c2 < cell_count,
                    buckets@.len() == cell_count,
                    count == buckets@[c2 as int]@.len(),
                    forall|cc: int, p: int|
                        0 <= cc < cell_count && 0 <= p < buckets@[cc]@.len() ==> (
                        #[trigger] buckets@[cc]@[p]) < n,
                    cells@.len() == c2 + 1,
                    cells@[c2 as int].start == offset,
                    cells@[c2 as int].count == count,
                    forall|cc: int|
                        0 <= cc < c2 ==> (#[trigger] cells@[cc]).count == buckets@[cc]@.len()
                            && cells@[cc].start == sum_lens(buckets@, cc)
                            && cells@[cc].start + cells@[cc].count <= offset,
                    offset + count <= n,
                    indices@.len() == offset + p2,
                    forall|cc: int, p: int|
                        #![trigger cells@[cc], buckets@[cc]@[p]]
                        0 <= cc < c2 && 0 <= p < buckets@[cc]@.len() ==> indices@[cells@[cc].start
                            + p] == buckets@[cc]@[p],
                    forall|p: int|
                        0 <= p < p2 ==> (#[trigger] indices@[offset + p]) == buckets@[c2 as int]@[p],
                    forall|p: int|
                        0 <= p < indices@.len() ==> (#[trigger] indices@[p]) < n,
                decreases count - p2,
            {
                indices.push(buckets[c2][p2]);
                p2 += 1;
            }
            offset += count;
            c2 += 1;
        }

        let g = Grid { min_x, min_y, cell_size, width, height, cells, indices };
        proof {
            assert(g.cells@.len() == cell_count);
            assert(g.cells@.len() >= 1) by {
                assert((width as int) * (height as int) >= 1) by (nonlinear_arith)
                    requires
                        width >= 1,
                        height >= 1,
                ;
            }
            assert(g.cells@[0].start == 0);
            assert forall|cc: int|
                0 <= cc < g.cells@.len() - 1 implies (#[trigger] g.cells@[cc + 1].start)
                == g.cells@[cc].start + g.cells@[cc].count by {
                assert(sum_lens(buckets@, cc + 1) == sum_lens(buckets@, cc) + buckets@[cc]@.len());
            }
            assert(g.cells@[g.cells@.len() - 1].start + g.cells@[g.cells@.len() - 1].count
                == g.indices@.len()) by {
                let last = g.cells@.len() - 1;
                assert(sum_lens(buckets@, last + 1) == sum_lens(buckets@, last)
                    + buckets@[last]@.len());
            }
            assert(g.indices@.len() == pts@.len());
            assert forall|c: int, p1: int, p2: int|
                #![trigger g.indices@[p1], g.indices@[p2], g.cells@[c]]
                0 <= c < g.cells@.len() && g.cells@[c].start <= p1 < p2 < g.cells@[c].start
                    + g.cells@[c].count implies g.indices@[p1] < g.indices@[p2] by {
                let q1 = p1 - g.cells@[c].start;
                let q2 = p2 - g.cells@[c].start;
                assert(g.indices@[g.cells@[c].start + q1] == buckets@[c]@[q1]);
                assert(g.indices@[g.cells@[c].start + q2] == buckets@[c]@[q2]);
                assert(buckets@[c]@[q1] < buckets@[c]@[q2]);
            }
            assert forall|i3: int|
                0 <= i3 < pts@.len() implies g.listed_in_cell(
                g.spec_cell_of(pts@[i3].sx(), pts@[i3].sy()),
                i3 as u32,
            ) by {
                let cj = pcell(pts@, i3, gminx, gminy, gcs, gw, gh);
                lemma_cell_of_range(gminx, gminy, gcs, gw, gh, pts@[i3].sx(), pts@[i3].sy());
                assert(0 <= cj < cell_count);
                assert(in_bucket(buckets@, cj, i3));
                let pb = lemma_in_bucket_witness(buckets@, cj, i3);
                assert(g.indices@[g.cells@[cj].start + pb] == buckets@[cj]@[pb]);
                assert(g.spec_cell_of(pts@[i3].sx(), pts@[i3].sy()) == cj);
            }
        }
        Result::Ok(g)
    }
}

impl Grid {
    /// Builds the grid over a reference track; each cell covers a
    /// square of side `cell_size` millimetres of real-world space.
    pub fn from_track(ref_track: &ReferenceTrack, cell_size: i64) -> (r: Result<
        Grid,
        ServiceError,
    >)
        requires
            ref_track.wf(),
            1 <= ref_track.track@.len() <= 0xFFFF_FFFF,
            1 <= cell_size <= 2_000_000_000,
        ensures
            match r {
                Result::Ok(g) => {
                    &&& g.wf(ref_track.track@)
                    &&& g.dims_in_range()
                    &&& g.cell_size == cell_size
                    &&& forall|c: int, p1: int, p2: int|
                        #![trigger g.indices@[p1], g.indices@[p2], g.cells@[c]]
                        0 <= c < g.cells@.len() && g.cells@[c].start <= p1 < p2 < g.cells@[c].start
                            + g.cells@[c].count ==> g.indices@[p1] < g.indices@[p2]
                },
                Result::Err(e) => e.etype matches ServiceErrorType::InvalidData(_),
            },
    {
        Grid::from_points(&ref_track.track, cell_size)
    }
}

} // verus!
