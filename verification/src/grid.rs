//! The image grid: a viewport tiled into a lattice of coloured cells.
//!
//! Construction discretises a source image: one cell per lattice site, its
//! colour sampled nearest-neighbour from the image, its scale derived from
//! the colour's lightness. Cells later change colour at most once, when a
//! rust patch covers them.

use vstd::prelude::*;
use vstd::arithmetic::div_mod::{
    lemma_fundamental_div_mod,
    lemma_div_pos_is_pos,
    lemma_remainder_lower,
};
use vstd::arithmetic::mul::{
    lemma_mul_inequality,
    lemma_mul_is_commutative,
    lemma_mul_is_distributive_sub,
    lemma_mul_nonnegative,
};
use crate::colour::{Hsla, pixel_colour, pixel_to_hsla, HUE_FULL, CHANNEL_FULL};
use crate::fixed::clamp_i64;
use crate::geometry::{Rect, Vec2i};
use crate::image::ImageBuf;
use crate::rng::{map_rng_range, next_u32};
use crate::rust_patches::RustPatch;

verus! {

/// Why a grid could not be built.
#[derive(Clone, Copy, Debug, PartialEq, Eq, Structural)]
pub enum GridError {
    /// The cell size exceeds a viewport dimension, leaving zero cells.
    InvalidGeometry,
}

/// One lattice site: a fixed position, a mutable display colour, the colour
/// the source image gave it, and a one-shot `finished` flag.
#[derive(Clone, Copy, Debug)]
pub struct Cell {
    /// The cell's centre, fixed at creation.
    pub position: Vec2i,
    /// The colour the cell currently shows.
    pub colour: Hsla,
    /// The colour sampled from the source image, kept as a blend reference.
    pub original_colour: Hsla,
    /// The rendered radius factor, a milli-value in `[0, 1000]`.
    pub scale: i64,
    /// Set once a patch has coloured the cell; never cleared.
    pub finished: bool,
}

impl Cell {
    /// The rendered radius factor, a milli-value in `[0, 1000]`.
    pub open spec fn spec_scale(self) -> int {
        self.scale as int
    }

    /// Whether a patch has already coloured this cell.
    pub open spec fn spec_finished(self) -> bool {
        self.finished
    }

    /// Valid colours and scale.
    pub open spec fn wf(self) -> bool {
        &&& self.colour.wf()
        &&& self.original_colour.wf()
        &&& 0 <= self.spec_scale() <= 1000
    }

    /// The rendered radius factor.
    pub fn scale(&self) -> (s: i64)
        ensures
            s == self.spec_scale(),
    {
        self.scale
    }

    /// Whether a patch has already coloured this cell.
    pub fn is_finished(&self) -> (f: bool)
        ensures
            f == self.spec_finished(),
    {
        self.finished
    }

    /// Mark the cell as coloured for good: no later patch may recolour it.
    pub fn finished(&mut self)
        ensures
            final(self).spec_finished(),
            final(self).position == old(self).position,
            final(self).colour == old(self).colour,
            final(self).original_colour == old(self).original_colour,
            final(self).spec_scale() == old(self).spec_scale(),
    {
        self.finished = true;
    }
}

/// How many grid columns a viewport of this width yields.
pub open spec fn grid_cols(rect: Rect, cell_size: int) -> int {
    (rect.width as int) / cell_size
}

/// How many grid rows a viewport of this height yields.
pub open spec fn grid_rows(rect: Rect, cell_size: int) -> int {
    (rect.height as int) / cell_size
}

/// The x coordinate of the centre of column `i`: columns advance rightward
/// from the viewport's left edge.
pub open spec fn lattice_x(rect: Rect, cell_size: int, i: int) -> int {
    rect.left + cell_size * i + cell_size / 2
}

/// The y coordinate of the centre of row `j`: rows advance downward from the
/// viewport's top edge.
pub open spec fn lattice_y(rect: Rect, cell_size: int, j: int) -> int {
    rect.bottom + rect.height - cell_size * j - cell_size / 2
}

/// The image pixel column that grid column `i` samples: nearest-neighbour,
/// by the truncated stride `image_dim / grid_dim`.
pub open spec fn sample_index(image_dim: int, grid_dim: int, i: int) -> int {
    (image_dim / grid_dim) * i
}

/// The cell that construction places at lattice site `(i, j)`.
pub open spec fn new_cell(rect: Rect, cell_size: int, image: ImageBuf, i: int, j: int) -> Cell {
    let c = pixel_colour(
        image.spec_pixel(
            sample_index(image.spec_width(), grid_cols(rect, cell_size), i),
            sample_index(image.spec_height(), grid_rows(rect, cell_size), j),
        ),
    );
    Cell {
        position: Vec2i {
            x: lattice_x(rect, cell_size, i) as i64,
            y: lattice_y(rect, cell_size, j) as i64,
        },
        colour: c,
        original_colour: c,
        scale: (1000 - c.lightness) as i64,
        finished: false,
    }
}

/// A filled circle for the renderer: centre, diameter and colour.
#[derive(Clone, Copy, Debug)]
pub struct Dot {
    pub position: Vec2i,
    pub diameter: i64,
    pub colour: Hsla,
}

/// The viewport, its cell lattice and the cells' state.
pub struct ImageGrid {
    cell_size: i64,
    cells: Vec<Vec<Cell>>,
    rect: Rect,
}

/// The sample stride lands every grid index inside the image dimension.
proof fn lemma_sample_lt(image_dim: int, grid_dim: int, i: int)
    requires
        0 < image_dim,
        0 < grid_dim,
        0 <= i < grid_dim,
    ensures
        0 <= sample_index(image_dim, grid_dim, i) < image_dim,
{
    let q = image_dim / grid_dim;
    lemma_div_pos_is_pos(image_dim, grid_dim);
    lemma_mul_nonnegative(q, i);
    lemma_fundamental_div_mod(image_dim, grid_dim);
    lemma_remainder_lower(image_dim, grid_dim);
    assert(grid_dim * q <= image_dim);
    if q == 0 {
        assert(q * i == 0) by (nonlinear_arith)
            requires
                q == 0,
        ;
    } else {
        lemma_mul_inequality(i, grid_dim - 1, q);
        lemma_mul_is_commutative(q, i);
        lemma_mul_is_commutative(q, grid_dim - 1);
        lemma_mul_is_distributive_sub(q, grid_dim, 1);
        lemma_mul_is_commutative(q, grid_dim);
        assert(q * i <= q * grid_dim - q);
        assert(q * i <= image_dim - q);
        assert(q * i < image_dim);
    }
    assert(sample_index(image_dim, grid_dim, i) == q * i);
    assert(0 <= q * i);
}

/// Every lattice column centre stays within the viewport's horizontal span,
/// and the columns fit: `cell_size * i + cell_size <= width` for `i` in range.
proof fn lemma_lattice_x_bounds(rect: Rect, cell_size: int, i: int)
    requires
        rect.wf(),
        0 < cell_size,
        0 <= i < grid_cols(rect, cell_size),
    ensures
        cell_size * i + cell_size <= rect.width,
        rect.left <= lattice_x(rect, cell_size, i) <= rect.left + rect.width,
{
    let g = grid_cols(rect, cell_size);
    lemma_fundamental_div_mod(rect.width as int, cell_size);
    lemma_remainder_lower(rect.width as int, cell_size);
    assert(cell_size * g <= rect.width);
    lemma_mul_inequality(i + 1, g, cell_size);
    lemma_mul_is_commutative(cell_size, i + 1);
    lemma_mul_is_commutative(cell_size, g);
    assert((i + 1) * cell_size == i * cell_size + cell_size) by (nonlinear_arith);
    lemma_mul_is_commutative(cell_size, i);
    lemma_mul_nonnegative(cell_size, i);
}

/// Every lattice row centre stays within the viewport's vertical span.
proof fn lemma_lattice_y_bounds(rect: Rect, cell_size: int, j: int)
    requires
        rect.wf(),
        0 < cell_size,
        0 <= j < grid_rows(rect, cell_size),
    ensures
        cell_size * j + cell_size <= rect.height,
        rect.bottom <= lattice_y(rect, cell_size, j) <= rect.bottom + rect.height,
{
    let g = grid_rows(rect, cell_size);
    lemma_fundamental_div_mod(rect.height as int, cell_size);
    lemma_remainder_lower(rect.height as int, cell_size);
    assert(cell_size * g <= rect.height);
    lemma_mul_inequality(j + 1, g, cell_size);
    lemma_mul_is_commutative(cell_size, j + 1);
    lemma_mul_is_commutative(cell_size, g);
    assert((j + 1) * cell_size == j * cell_size + cell_size) by (nonlinear_arith);
    lemma_mul_is_commutative(cell_size, j);
    lemma_mul_nonnegative(cell_size, j);
}

/// Whether the centre of column `i` falls horizontally inside `tgt`.
pub open spec fn col_in(rect: Rect, cell_size: int, tgt: Rect, i: int) -> bool {
    tgt.left <= lattice_x(rect, cell_size, i) <= tgt.left + tgt.width
}

/// Whether the centre of row `j` falls vertically inside `tgt`.
pub open spec fn row_in(rect: Rect, cell_size: int, tgt: Rect, j: int) -> bool {
    tgt.bottom <= lattice_y(rect, cell_size, j) <= tgt.bottom + tgt.height
}

/// How many columns of index below `i` fall inside `tgt`: the resampling
/// rank of column `i` when it is itself selected.
pub open spec fn cols_in_below(rect: Rect, cell_size: int, tgt: Rect, i: int) -> int
    decreases i,
{
    if i <= 0 {
        0
    } else {
        cols_in_below(rect, cell_size, tgt, i - 1) + if col_in(rect, cell_size, tgt, i - 1) {
            1int
        } else {
            0int
        }
    }
}

/// How many rows of index below `j` fall inside `tgt`.
pub open spec fn rows_in_below(rect: Rect, cell_size: int, tgt: Rect, j: int) -> int
    decreases j,
{
    if j <= 0 {
        0
    } else {
        rows_in_below(rect, cell_size, tgt, j - 1) + if row_in(rect, cell_size, tgt, j - 1) {
            1int
        } else {
            0int
        }
    }
}

/// The selection count grows by at most one per index and never shrinks.
proof fn lemma_cols_in_monotone(rect: Rect, cell_size: int, tgt: Rect, i: int, k: int)
    requires
        0 <= i <= k,
    ensures
        cols_in_below(rect, cell_size, tgt, i) <= cols_in_below(rect, cell_size, tgt, k),
        col_in(rect, cell_size, tgt, i) && i < k ==> cols_in_below(rect, cell_size, tgt, i) + 1
            <= cols_in_below(rect, cell_size, tgt, k),
    decreases k - i,
{
    if i < k {
        lemma_cols_in_monotone(rect, cell_size, tgt, i + 1, k);
    }
}

/// The selection count grows by at most one per index and never shrinks.
proof fn lemma_rows_in_monotone(rect: Rect, cell_size: int, tgt: Rect, j: int, k: int)
    requires
        0 <= j <= k,
    ensures
        rows_in_below(rect, cell_size, tgt, j) <= rows_in_below(rect, cell_size, tgt, k),
        row_in(rect, cell_size, tgt, j) && j < k ==> rows_in_below(rect, cell_size, tgt, j) + 1
            <= rows_in_below(rect, cell_size, tgt, k),
    decreases k - j,
{
    if j < k {
        lemma_rows_in_monotone(rect, cell_size, tgt, j + 1, k);
    }
}

/// At most one column is selected per index.
proof fn lemma_cols_in_bound(rect: Rect, cell_size: int, tgt: Rect, i: int)
    requires
        0 <= i,
    ensures
        0 <= cols_in_below(rect, cell_size, tgt, i) <= i,
    decreases i,
{
    if i > 0 {
        lemma_cols_in_bound(rect, cell_size, tgt, i - 1);
    }
}

/// At most one row is selected per index.
proof fn lemma_rows_in_bound(rect: Rect, cell_size: int, tgt: Rect, j: int)
    requires
        0 <= j,
    ensures
        0 <= rows_in_below(rect, cell_size, tgt, j) <= j,
    decreases j,
{
    if j > 0 {
        lemma_rows_in_bound(rect, cell_size, tgt, j - 1);
    }
}

/// The source pixel index for selection rank `k` of `n + 1` selected lines,
/// mapped proportionally onto an image dimension of `dim` pixels.
pub open spec fn resample_index(k: int, n: int, dim: int) -> int {
    if n == 0 {
        0
    } else {
        k * (dim - 1) / n
    }
}

/// Proportional resampling lands every rank inside the image dimension.
proof fn lemma_resample_lt(k: int, n: int, dim: int)
    requires
        0 <= k <= n,
        0 < dim,
    ensures
        0 <= resample_index(k, n, dim) < dim,
{
    if n != 0 {
        lemma_mul_nonnegative(k, dim - 1);
        lemma_div_pos_is_pos(k * (dim - 1), n);
        lemma_mul_inequality(k, n, dim - 1);
        vstd::arithmetic::div_mod::lemma_div_is_ordered(k * (dim - 1), n * (dim - 1), n);
        vstd::arithmetic::div_mod::lemma_div_multiples_vanish(dim - 1, n);
    }
}

/// The cell after the centred composite recolours it: both colours replaced,
/// the scale recomputed from the new lightness, position and flag kept.
pub open spec fn recoloured(cell: Cell, c: Hsla) -> Cell {
    Cell { colour: c, original_colour: c, scale: (1000 - c.lightness) as i64, ..cell }
}

/// The colour the centred composite writes into the selected cell `(i, j)`:
/// the image resampled proportionally over the selected ranks.
pub open spec fn composite_colour(
    rect: Rect,
    cell_size: int,
    tgt: Rect,
    image: ImageBuf,
    i: int,
    j: int,
) -> Hsla {
    pixel_colour(
        image.spec_pixel(
            resample_index(
                cols_in_below(rect, cell_size, tgt, i),
                cols_in_below(rect, cell_size, tgt, grid_cols(rect, cell_size)) - 1,
                image.spec_width(),
            ),
            resample_index(
                rows_in_below(rect, cell_size, tgt, j),
                rows_in_below(rect, cell_size, tgt, grid_rows(rect, cell_size)) - 1,
                image.spec_height(),
            ),
        ),
    )
}

/// The index of the first patch at or after `i` that covers `q`, or the
/// patch count when none does: earlier patches win overlaps.
pub open spec fn first_containing(patches: Seq<RustPatch>, q: Vec2i, i: int) -> int
    decreases patches.len() - i,
{
    if i < 0 || i >= patches.len() {
        patches.len() as int
    } else if patches[i].spec_contains(q) {
        i
    } else {
        first_containing(patches, q, i + 1)
    }
}

/// A scan that saw no cover up to `r`, and a cover (or the end) at `r`,
/// found the first cover.
proof fn lemma_first_containing(patches: Seq<RustPatch>, q: Vec2i, i: int, r: int)
    requires
        0 <= i <= r <= patches.len(),
        forall|pp: int| i <= pp < r ==> !(#[trigger] patches[pp]).spec_contains(q),
        r == patches.len() || patches[r].spec_contains(q),
    ensures
        first_containing(patches, q, i) == r,
    decreases r - i,
{
    if i < r {
        lemma_first_containing(patches, q, i + 1, r);
    }
}

/// The first cover's index lies between the scan start and the patch count.
proof fn lemma_first_containing_range(patches: Seq<RustPatch>, q: Vec2i, i: int)
    requires
        0 <= i <= patches.len(),
    ensures
        i <= first_containing(patches, q, i) <= patches.len(),
    decreases patches.len() - i,
{
    if i < patches.len() && !patches[i].spec_contains(q) {
        lemma_first_containing_range(patches, q, i + 1);
    }
}

/// Whether `c` is `base` with the bounded random jitter applied: each
/// channel moved by at most the jitter radius, clamped to its valid range,
/// the alpha untouched.
pub open spec fn jittered_from(c: Hsla, base: Hsla) -> bool {
    &&& -10_000 <= c.hue - base.hue <= 10_000
    &&& 0 <= c.hue <= HUE_FULL
    &&& -100 <= c.saturation - base.saturation <= 100
    &&& 0 <= c.saturation <= CHANNEL_FULL
    &&& -100 <= c.lightness - base.lightness <= 100
    &&& 0 <= c.lightness <= CHANNEL_FULL
    &&& c.alpha == base.alpha
}

/// How one pass of the patch rule relates a cell's new state to its old:
/// a finished cell is untouched; an unfinished cell covered by some patch
/// takes the first covering patch's colour with jitter and turns finished;
/// an uncovered cell is untouched.
pub open spec fn cell_ruled(c0: Cell, c1: Cell, patches: Seq<RustPatch>) -> bool {
    if c0.spec_finished() {
        c1 == c0
    } else {
        let fm = first_containing(patches, c0.position, 0);
        if fm < patches.len() {
            &&& c1.position == c0.position
            &&& c1.original_colour == c0.original_colour
            &&& c1.spec_scale() == c0.spec_scale()
            &&& c1.spec_finished()
            &&& jittered_from(c1.colour, patches[fm].colour)
        } else {
            c1 == c0
        }
    }
}

/// Tiling law: a lattice grid has exactly `floor(width / cell_size)`
/// columns of `floor(height / cell_size)` cells each, and neighbouring cell
/// centres are exactly one cell size apart in both directions.
pub proof fn lemma_grid_tiling(g: ImageGrid)
    requires
        g.lattice(),
    ensures
        g.view().len() == (g.spec_rect().width as int) / g.spec_cell_size(),
        forall|i: int|
            0 <= i < g.spec_cols() ==> (#[trigger] g.view()[i]).len() == (
            g.spec_rect().height as int) / g.spec_cell_size(),
        forall|i: int, j: int|
            0 <= i < g.spec_cols() - 1 && 0 <= j < g.spec_rows() ==> (#[trigger] g.cell_at(
                i + 1,
                j,
            )).position.x - g.cell_at(i, j).position.x == g.spec_cell_size(),
        forall|i: int, j: int|
            0 <= i < g.spec_cols() && 0 <= j < g.spec_rows() - 1 ==> (#[trigger] g.cell_at(
                i,
                j + 1,
            )).position.y - g.cell_at(i, j).position.y == -g.spec_cell_size(),
{
    let rect = g.spec_rect();
    let cs = g.spec_cell_size();
    assert forall|i: int, j: int|
        0 <= i < g.spec_cols() - 1 && 0 <= j < g.spec_rows() implies (#[trigger] g.cell_at(
        i + 1,
        j,
    )).position.x - g.cell_at(i, j).position.x == cs by {
        lemma_lattice_x_bounds(rect, cs, i);
        lemma_lattice_x_bounds(rect, cs, i + 1);
        assert(cs * (i + 1) == cs * i + cs) by (nonlinear_arith);
    }
    assert forall|i: int, j: int|
        0 <= i < g.spec_cols() && 0 <= j < g.spec_rows() - 1 implies (#[trigger] g.cell_at(
        i,
        j + 1,
    )).position.y - g.cell_at(i, j).position.y == -cs by {
        lemma_lattice_y_bounds(rect, cs, j);
        lemma_lattice_y_bounds(rect, cs, j + 1);
        assert(cs * (j + 1) == cs * j + cs) by (nonlinear_arith);
    }
}

/// Finished monotonicity: a finished cell passes through any number of
/// passes of the patch rule untouched, whatever patches each pass carries;
/// two passes are shown, and the same argument chains on.
pub proof fn lemma_finished_monotone(
    c0: Cell,
    c1: Cell,
    c2: Cell,
    first_pass: Seq<RustPatch>,
    second_pass: Seq<RustPatch>,
)
    requires
        c0.spec_finished(),
        cell_ruled(c0, c1, first_pass),
        cell_ruled(c1, c2, second_pass),
    ensures
        c1 == c0,
        c2 == c0,
{
}

/// Column-major flattening keeps indices of earlier columns below the count
/// of cells already emitted.
proof fn lemma_flat_index(ii: int, jj: int, i: int, rows: int)
    requires
        0 <= ii < i,
        0 <= jj < rows,
    ensures
        0 <= ii * rows + jj < i * rows,
{
    assert(ii * rows + jj < i * rows) by (nonlinear_arith)
        requires
            0 <= ii < i,
            0 <= jj < rows,
    ;
    assert(0 <= ii * rows) by (nonlinear_arith)
        requires
            0 <= ii,
            0 < rows,
    ;
}

impl ImageGrid {
    /// The lattice pitch, in milli-units.
    pub closed spec fn spec_cell_size(self) -> int {
        self.cell_size as int
    }

    /// The viewport the grid was built against.
    pub closed spec fn spec_rect(self) -> Rect {
        self.rect
    }

    /// The cells, one inner sequence per column, rows ordered top-down.
    pub closed spec fn view(self) -> Seq<Seq<Cell>> {
        self.cells@.map_values(|col: Vec<Cell>| col@)
    }

    /// The cell of column `i`, row `j`.
    pub open spec fn cell_at(self, i: int, j: int) -> Cell {
        self.view()[i][j]
    }

    /// The number of columns.
    pub open spec fn spec_cols(self) -> int {
        grid_cols(self.spec_rect(), self.spec_cell_size())
    }

    /// The number of rows.
    pub open spec fn spec_rows(self) -> int {
        grid_rows(self.spec_rect(), self.spec_cell_size())
    }

    /// The grid's lattice shape: at least one cell, the column count and the
    /// per-column row count derived from viewport and pitch, and every cell
    /// centred on its site.
    pub open spec fn lattice(self) -> bool {
        &&& self.spec_rect().wf()
        &&& 0 < self.spec_cell_size() <= self.spec_rect().width
        &&& self.spec_cell_size() <= self.spec_rect().height
        &&& 1 <= self.spec_cols()
        &&& 1 <= self.spec_rows()
        &&& self.view().len() == self.spec_cols()
        &&& forall|i: int|
            0 <= i < self.spec_cols() ==> (#[trigger] self.view()[i]).len() == self.spec_rows()
        &&& forall|i: int, j: int|
            0 <= i < self.spec_cols() && 0 <= j < self.spec_rows() ==> {
                &&& (#[trigger] self.cell_at(i, j)).position.x == lattice_x(
                    self.spec_rect(),
                    self.spec_cell_size(),
                    i,
                )
                &&& self.cell_at(i, j).position.y == lattice_y(
                    self.spec_rect(),
                    self.spec_cell_size(),
                    j,
                )
            }
    }

    /// A well-formed grid: the lattice shape plus valid state in every cell.
    pub open spec fn wf(self) -> bool {
        &&& self.lattice()
        &&& forall|i: int, j: int|
            0 <= i < self.spec_cols() && 0 <= j < self.spec_rows() ==> (#[trigger] self.cell_at(
                i,
                j,
            )).wf()
    }

    /// The number of columns.
    pub fn cols(&self) -> (n: usize)
        requires
            self.lattice(),
        ensures
            n == self.spec_cols(),
    {
        self.cells.len()
    }

    /// The number of rows.
    pub fn rows(&self) -> (n: usize)
        requires
            self.lattice(),
        ensures
            n == self.spec_rows(),
    {
        proof {
            assert(self.view()[0].len() == self.spec_rows());
            assert(self.view()[0] == self.cells@[0]@);
        }
        self.cells[0].len()
    }

    /// The cell of column `i`, row `j`.
    pub fn cell(&self, i: usize, j: usize) -> (c: &Cell)
        requires
            self.lattice(),
            i < self.spec_cols(),
            j < self.spec_rows(),
        ensures
            *c == self.cell_at(i as int, j as int),
    {
        proof {
            assert(self.view()[i as int].len() == self.spec_rows());
            assert(self.view()[i as int] == self.cells@[i as int]@);
        }
        &self.cells[i][j]
    }

    /// Discretise `image` over `rect`: one cell per lattice site, coloured by
    /// the nearest-neighbour sample, scale set to the lightness head-room.
    /// Fails with `InvalidGeometry` when the cell size exceeds a viewport
    /// dimension.
    #[verifier::loop_isolation(false)]
    pub fn new(rect: &Rect, cell_size: i64, image: &ImageBuf) -> (r: Result<ImageGrid, GridError>)
        requires
            rect.wf(),
            0 < cell_size,
            image.wf(),
        ensures
            match r {
                Ok(g) => {
                    &&& g.spec_rect() == *rect
                    &&& g.spec_cell_size() == cell_size
                    &&& g.wf()
                    &&& forall|i: int, j: int|
                        0 <= i < g.spec_cols() && 0 <= j < g.spec_rows()
                            ==> #[trigger] g.cell_at(i, j) == new_cell(
                            *rect,
                            cell_size as int,
                            *image,
                            i,
                            j,
                        )
                },
                Err(e) => {
                    &&& e == GridError::InvalidGeometry
                    &&& (grid_cols(*rect, cell_size as int) == 0 || grid_rows(
                        *rect,
                        cell_size as int,
                    ) == 0)
                },
            },
    {
        let gw64: i64 = rect.width / cell_size;
        let gh64: i64 = rect.height / cell_size;
        if gw64 == 0 || gh64 == 0 {
            return Err(GridError::InvalidGeometry);
        }
        let gw: usize = gw64 as usize;
        let gh: usize = gh64 as usize;
        let iw: usize = image.width();
        let ih: usize = image.height();
        let wq: usize = iw / gw;
        let hq: usize = ih / gh;
        let mut cells: Vec<Vec<Cell>> = Vec::new();
        let mut i: usize = 0;
        while i < gw
            invariant
                i <= gw,
                cells@.len() == i,
                forall|ii: int|
                    0 <= ii < i ==> (#[trigger] cells@[ii])@.len() == gh,
                forall|ii: int, jj: int|
                    0 <= ii < i && 0 <= jj < gh ==> (#[trigger] cells@[ii]@[jj]) == new_cell(
                        *rect,
                        cell_size as int,
                        *image,
                        ii,
                        jj,
                    ),
            decreases gw - i,
        {
            let mut col: Vec<Cell> = Vec::new();
            let mut j: usize = 0;
            while j < gh
                invariant
                    i < gw,
                    j <= gh,
                    col@.len() == j,
                    forall|jj: int|
                        0 <= jj < j ==> (#[trigger] col@[jj]) == new_cell(
                            *rect,
                            cell_size as int,
                            *image,
                            i as int,
                            jj,
                        ),
                decreases gh - j,
            {
                proof {
                    lemma_sample_lt(iw as int, gw as int, i as int);
                    lemma_sample_lt(ih as int, gh as int, j as int);
                }
                let px: usize = wq * i;
                let py: usize = hq * j;
                let pix = image.pixel(px, py);
                let colour = pixel_to_hsla(pix);
                proof {
                    lemma_lattice_x_bounds(*rect, cell_size as int, i as int);
                    lemma_lattice_y_bounds(*rect, cell_size as int, j as int);
                }
                let pos_x: i64 = rect.left + cell_size * (i as i64) + cell_size / 2;
                let pos_y: i64 = rect.bottom + rect.height - cell_size * (j as i64) - cell_size
                    / 2;
                let scale: i64 = 1000 - colour.lightness;
                col.push(
                    Cell {
                        position: Vec2i { x: pos_x, y: pos_y },
                        colour,
                        original_colour: colour,
                        scale,
                        finished: false,
                    },
                );
                j += 1;
            }
            cells.push(col);
            i += 1;
        }
        let g = ImageGrid { cell_size, cells, rect: *rect };
        proof {
            if rect.width < cell_size {
                vstd::arithmetic::div_mod::lemma_basic_div(rect.width as int, cell_size as int);
            }
            if rect.height < cell_size {
                vstd::arithmetic::div_mod::lemma_basic_div(rect.height as int, cell_size as int);
            }
            assert forall|i: int|
                0 <= i < g.spec_cols() implies (#[trigger] g.view()[i]).len() == g.spec_rows() by {
                assert(g.view()[i] == g.cells@[i]@);
            }
            assert forall|i: int, j: int|
                0 <= i < g.spec_cols() && 0 <= j < g.spec_rows() implies #[trigger] g.cell_at(
                i,
                j,
            ) == new_cell(*rect, cell_size as int, *image, i, j) by {
                assert(g.view()[i] == g.cells@[i]@);
            }
            assert forall|i: int, j: int|
                0 <= i < g.spec_cols() && 0 <= j < g.spec_rows() implies (#[trigger] g.cell_at(
                i,
                j,
            )).wf() && g.cell_at(i, j).position.x == lattice_x(*rect, cell_size as int, i)
                && g.cell_at(i, j).position.y == lattice_y(*rect, cell_size as int, j) by {
                assert(g.cell_at(i, j) == new_cell(*rect, cell_size as int, *image, i, j));
                crate::colour::lemma_pixel_colour_wf(
                    image.spec_pixel(
                        sample_index(image.spec_width(), g.spec_cols(), i),
                        sample_index(image.spec_height(), g.spec_rows(), j),
                    ),
                );
                lemma_lattice_x_bounds(*rect, cell_size as int, i);
                lemma_lattice_y_bounds(*rect, cell_size as int, j);
            }
        }
        Ok(g)
    }

    /// One dot per cell, column by column, each dot's diameter the cell's
    /// scale applied to the cell pitch stretched by `scale_factor`.
    #[verifier::loop_isolation(false)]
    pub fn draw(&self, scale_factor: i64) -> (dots: Vec<Dot>)
        requires
            self.wf(),
            0 <= scale_factor <= 100_000,
        ensures
            dots@.len() == self.spec_cols() * self.spec_rows(),
            forall|i: int, j: int|
                0 <= i < self.spec_cols() && 0 <= j < self.spec_rows() ==> {
                    let d = #[trigger] dots@[i * self.spec_rows() + j];
                    &&& d.position == self.cell_at(i, j).position
                    &&& d.colour == self.cell_at(i, j).colour
                    &&& d.diameter == crate::fixed::mul_milli(
                        self.cell_at(i, j).spec_scale(),
                        crate::fixed::mul_milli(self.spec_cell_size(), scale_factor as int),
                    )
                },
    {
        let gw: usize = self.cols();
        let gh: usize = self.rows();
        proof {
            assert(0 <= (self.spec_cell_size()) * (scale_factor as int) <= 2_000_000_000_000)
                by (nonlinear_arith)
                requires
                    0 < self.spec_cell_size() <= 20_000_000,
                    0 <= scale_factor <= 100_000,
            ;
        }
        let pitch: i64 = crate::fixed::mul_div_milli(self.cell_size, scale_factor);
        proof {
            assert(0 <= pitch <= 2_000_000_000_000) by {
                assert(0 <= crate::fixed::tdiv_milli((self.spec_cell_size()) * (
                scale_factor as int)) <= (self.spec_cell_size()) * (scale_factor as int));
            }
        }
        let mut dots: Vec<Dot> = Vec::new();
        let mut i: usize = 0;
        while i < gw
            invariant
                i <= gw,
                dots@.len() == i * self.spec_rows(),
                forall|ii: int, jj: int|
                    0 <= ii < i && 0 <= jj < gh ==> {
                        let d = #[trigger] dots@[ii * self.spec_rows() + jj];
                        &&& d.position == self.cell_at(ii, jj).position
                        &&& d.colour == self.cell_at(ii, jj).colour
                        &&& d.diameter == crate::fixed::mul_milli(
                            self.cell_at(ii, jj).spec_scale(),
                            pitch as int,
                        )
                    },
            decreases gw - i,
        {
            let mut j: usize = 0;
            while j < gh
                invariant
                    i < gw,
                    j <= gh,
                    dots@.len() == i * self.spec_rows() + j,
                    forall|ii: int, jj: int|
                        0 <= ii < i && 0 <= jj < gh ==> {
                            let d = #[trigger] dots@[ii * self.spec_rows() + jj];
                            &&& d.position == self.cell_at(ii, jj).position
                            &&& d.colour == self.cell_at(ii, jj).colour
                            &&& d.diameter == crate::fixed::mul_milli(
                                self.cell_at(ii, jj).spec_scale(),
                                pitch as int,
                            )
                        },
                    forall|jj: int|
                        0 <= jj < j ==> {
                            let d = #[trigger] dots@[i as int * self.spec_rows() + jj];
                            &&& d.position == self.cell_at(i as int, jj).position
                            &&& d.colour == self.cell_at(i as int, jj).colour
                            &&& d.diameter == crate::fixed::mul_milli(
                                self.cell_at(i as int, jj).spec_scale(),
                                pitch as int,
                            )
                        },
                decreases gh - j,
            {
                let c = self.cell(i, j);
                proof {
                    assert(0 <= (c.spec_scale()) * (pitch as int) <= 0x4000_0000_0000_0000)
                        by (nonlinear_arith)
                        requires
                            0 <= c.spec_scale() <= 1000,
                            0 <= pitch <= 2_000_000_000_000,
                    ;
                }
                let diameter: i64 = crate::fixed::mul_div_milli(c.scale(), pitch);
                dots.push(Dot { position: c.position, diameter, colour: c.colour });
                proof {
                    assert forall|ii: int, jj: int|
                        0 <= ii < i && 0 <= jj < gh implies {
                        let d = #[trigger] dots@[ii * self.spec_rows() + jj];
                        &&& d.position == self.cell_at(ii, jj).position
                        &&& d.colour == self.cell_at(ii, jj).colour
                        &&& d.diameter == crate::fixed::mul_milli(
                            self.cell_at(ii, jj).spec_scale(),
                            pitch as int,
                        )
                    } by {
                        lemma_flat_index(ii, jj, i as int, self.spec_rows());
                    }
                }
                j += 1;
            }
            i += 1;
            proof {
                assert(i as int * self.spec_rows() == (i - 1) * self.spec_rows()
                    + self.spec_rows()) by (nonlinear_arith);
            }
        }
        proof {
            assert(dots@.len() == self.spec_cols() * self.spec_rows());
        }
        dots
    }

    /// Overwrite the cells whose centres fall inside a rectangle of extents
    /// `size` centred on the viewport and shifted by `offset`: each selected
    /// cell takes the proportionally resampled colour of `image` as both its
    /// display and original colour, and a scale recomputed from it. When no
    /// cell falls inside the rectangle, nothing changes.
    #[verifier::loop_isolation(false)]
    #[verifier::rlimit(30)]
    pub fn add_image_centre(&mut self, image: &ImageBuf, size: Vec2i, offset: Vec2i)
        requires
            old(self).wf(),
            image.wf(),
            image.spec_width() <= 1_000_000_000,
            image.spec_height() <= 1_000_000_000,
            0 <= size.x <= crate::geometry::COORD_LIMIT,
            0 <= size.y <= crate::geometry::COORD_LIMIT,
            offset.wf(),
        ensures
            final(self).spec_rect() == old(self).spec_rect(),
            final(self).spec_cell_size() == old(self).spec_cell_size(),
            final(self).wf(),
            final(self).view().len() == old(self).view().len(),
            forall|i: int|
                0 <= i < old(self).spec_cols() ==> (#[trigger] final(self).view()[i]).len() == old(
                    self,
                ).view()[i].len(),
            ({
                let rect = old(self).spec_rect();
                let cs = old(self).spec_cell_size();
                let tgt = rect.spec_centred(size, offset);
                forall|i: int, j: int|
                    0 <= i < old(self).spec_cols() && 0 <= j < old(self).spec_rows()
                        ==> (#[trigger] final(self).cell_at(i, j)) == (if col_in(rect, cs, tgt, i)
                        && row_in(rect, cs, tgt, j) {
                        recoloured(
                            old(self).cell_at(i, j),
                            composite_colour(rect, cs, tgt, *image, i, j),
                        )
                    } else {
                        old(self).cell_at(i, j)
                    })
            }),
    {
        let ghost rect0 = self.spec_rect();
        let ghost cs0 = self.spec_cell_size();
        let tgt: Rect = self.rect.centred(size, offset);
        let gw: usize = self.cols();
        let gh: usize = self.rows();
        let tright: i64 = tgt.left + tgt.width;
        let ttop: i64 = tgt.bottom + tgt.height;
        let mut xs: Vec<usize> = Vec::new();
        let mut i: usize = 0;
        while i < gw
            invariant
                i <= gw,
                xs@.len() == cols_in_below(rect0, cs0, tgt, i as int),
                forall|a: int|
                    0 <= a < xs@.len() ==> {
                        let ii = (#[trigger] xs@[a]) as int;
                        &&& 0 <= ii < i
                        &&& col_in(rect0, cs0, tgt, ii)
                        &&& cols_in_below(rect0, cs0, tgt, ii) == a
                    },
                forall|ii: int|
                    0 <= ii < i && #[trigger] col_in(rect0, cs0, tgt, ii) ==> {
                        let a = cols_in_below(rect0, cs0, tgt, ii);
                        &&& 0 <= a < xs@.len()
                        &&& xs@[a] == ii
                    },
            decreases gw - i,
        {
            let x: i64 = self.cell(i, 0).position.x;
            if tgt.left <= x && x <= tright {
                xs.push(i);
            }
            i += 1;
            proof {
                assert(cols_in_below(rect0, cs0, tgt, i as int) == cols_in_below(
                    rect0,
                    cs0,
                    tgt,
                    i as int - 1,
                ) + if col_in(rect0, cs0, tgt, i as int - 1) {
                    1int
                } else {
                    0int
                });
            }
        }
        let mut ys: Vec<usize> = Vec::new();
        let mut j: usize = 0;
        while j < gh
            invariant
                j <= gh,
                ys@.len() == rows_in_below(rect0, cs0, tgt, j as int),
                forall|b: int|
                    0 <= b < ys@.len() ==> {
                        let jj = (#[trigger] ys@[b]) as int;
                        &&& 0 <= jj < j
                        &&& row_in(rect0, cs0, tgt, jj)
                        &&& rows_in_below(rect0, cs0, tgt, jj) == b
                    },
                forall|jj: int|
                    0 <= jj < j && #[trigger] row_in(rect0, cs0, tgt, jj) ==> {
                        let b = rows_in_below(rect0, cs0, tgt, jj);
                        &&& 0 <= b < ys@.len()
                        &&& ys@[b] == jj
                    },
            decreases gh - j,
        {
            let y: i64 = self.cell(0, j).position.y;
            if tgt.bottom <= y && y <= ttop {
                ys.push(j);
            }
            j += 1;
            proof {
                assert(rows_in_below(rect0, cs0, tgt, j as int) == rows_in_below(
                    rect0,
                    cs0,
                    tgt,
                    j as int - 1,
                ) + if row_in(rect0, cs0, tgt, j as int - 1) {
                    1int
                } else {
                    0int
                });
            }
        }
        let ncols: usize = xs.len();
        let nrows: usize = ys.len();
        if ncols == 0 || nrows == 0 {
            proof {
                assert forall|i2: int, j2: int|
                    0 <= i2 < old(self).spec_cols() && 0 <= j2 < old(self).spec_rows() implies !(
                col_in(rect0, cs0, tgt, i2) && row_in(rect0, cs0, tgt, j2)) by {
                    if col_in(rect0, cs0, tgt, i2) && row_in(rect0, cs0, tgt, j2) {
                        lemma_cols_in_monotone(rect0, cs0, tgt, i2, gw as int);
                        lemma_rows_in_monotone(rect0, cs0, tgt, j2, gh as int);
                    }
                }
            }
            return ;
        }
        let iw: usize = image.width();
        let ih: usize = image.height();
        let nc1: usize = ncols - 1;
        let nr1: usize = nrows - 1;
        proof {
            lemma_cols_in_bound(rect0, cs0, tgt, gw as int);
            lemma_rows_in_bound(rect0, cs0, tgt, gh as int);
            vstd::arithmetic::div_mod::lemma_div_nonincreasing(rect0.width as int, cs0);
            vstd::arithmetic::div_mod::lemma_div_nonincreasing(rect0.height as int, cs0);
            assert(ncols <= 20_000_000 && nrows <= 20_000_000);
        }
        let mut a: usize = 0;
        while a < ncols
            invariant
                a <= ncols,
                self.spec_rect() == rect0,
                self.spec_cell_size() == cs0,
                self.view().len() == old(self).view().len(),
                forall|ii: int|
                    0 <= ii < old(self).spec_cols() ==> (#[trigger] self.view()[ii]).len() == old(
                        self,
                    ).view()[ii].len(),
                forall|ii: int, jj: int|
                    0 <= ii < old(self).spec_cols() && 0 <= jj < old(self).spec_rows()
                        ==> (#[trigger] self.cell_at(ii, jj)) == (if col_in(rect0, cs0, tgt, ii)
                        && row_in(rect0, cs0, tgt, jj) && cols_in_below(rect0, cs0, tgt, ii)
                        < a {
                        recoloured(
                            old(self).cell_at(ii, jj),
                            composite_colour(rect0, cs0, tgt, *image, ii, jj),
                        )
                    } else {
                        old(self).cell_at(ii, jj)
                    }),
            decreases ncols - a,
        {
            let ci: usize = xs[a];
            let px: usize = if nc1 == 0 {
                0
            } else {
                proof {
                    assert(0 <= (a as int) * ((iw as int) - 1) <= 20_000_000_000_000_000)
                        by (nonlinear_arith)
                        requires
                            0 <= a as int <= 20_000_000,
                            1 <= iw as int <= 1_000_000_000,
                    ;
                    lemma_resample_lt(a as int, nc1 as int, iw as int);
                }
                ((a as u64) * ((iw as u64) - 1) / (nc1 as u64)) as usize
            };
            proof {
                lemma_resample_lt(a as int, nc1 as int, iw as int);
                assert(px as int == resample_index(a as int, nc1 as int, iw as int));
            }
            let mut b: usize = 0;
            while b < nrows
                invariant
                    b <= nrows,
                    a < ncols,
                    self.spec_rect() == rect0,
                    self.spec_cell_size() == cs0,
                    self.view().len() == old(self).view().len(),
                    forall|ii: int|
                        0 <= ii < old(self).spec_cols() ==> (#[trigger] self.view()[ii]).len()
                            == old(self).view()[ii].len(),
                    forall|ii: int, jj: int|
                        0 <= ii < old(self).spec_cols() && 0 <= jj < old(self).spec_rows()
                            ==> (#[trigger] self.cell_at(ii, jj)) == (if col_in(
                            rect0,
                            cs0,
                            tgt,
                            ii,
                        ) && row_in(rect0, cs0, tgt, jj) && (cols_in_below(rect0, cs0, tgt, ii)
                            < a || (cols_in_below(rect0, cs0, tgt, ii) == a && rows_in_below(
                            rect0,
                            cs0,
                            tgt,
                            jj,
                        ) < b)) {
                            recoloured(
                                old(self).cell_at(ii, jj),
                                composite_colour(rect0, cs0, tgt, *image, ii, jj),
                            )
                        } else {
                            old(self).cell_at(ii, jj)
                        }),
                decreases nrows - b,
            {
                let rj: usize = ys[b];
                let py: usize = if nr1 == 0 {
                    0
                } else {
                    proof {
                        assert(0 <= (b as int) * ((ih as int) - 1) <= 20_000_000_000_000_000)
                            by (nonlinear_arith)
                            requires
                                0 <= b as int <= 20_000_000,
                                1 <= ih as int <= 1_000_000_000,
                        ;
                        lemma_resample_lt(b as int, nr1 as int, ih as int);
                    }
                    ((b as u64) * ((ih as u64) - 1) / (nr1 as u64)) as usize
                };
                proof {
                    lemma_resample_lt(b as int, nr1 as int, ih as int);
                    assert(py as int == resample_index(b as int, nr1 as int, ih as int));
                }
                let pix = image.pixel(px, py);
                let c = pixel_to_hsla(pix);
                proof {
                    assert(self.view()[ci as int].len() == old(self).view()[ci as int].len());
                    assert(self.view()[ci as int] == self.cells@[ci as int]@);
                }
                let ghost pre = *self;
                let oldcell: Cell = self.cells[ci][rj];
                self.cells[ci][rj] = Cell {
                    colour: c,
                    original_colour: c,
                    scale: 1000 - c.lightness,
                    ..oldcell
                };
                b += 1;
                proof {
                    lemma_cols_in_monotone(rect0, cs0, tgt, ci as int, gw as int);
                    lemma_rows_in_monotone(rect0, cs0, tgt, rj as int, gh as int);
                    assert(oldcell == pre.cell_at(ci as int, rj as int));
                    assert(oldcell == old(self).cell_at(ci as int, rj as int));
                    assert forall|ii: int|
                        0 <= ii < old(self).spec_cols() implies (#[trigger] self.view()[ii]).len()
                        == old(self).view()[ii].len() by {
                        assert(self.view()[ii] == self.cells@[ii]@);
                        assert(pre.view()[ii] == pre.cells@[ii]@);
                    }
                    assert forall|ii: int, jj: int|
                        0 <= ii < old(self).spec_cols() && 0 <= jj < old(self).spec_rows() implies (
                    #[trigger] self.cell_at(ii, jj)) == (if col_in(rect0, cs0, tgt, ii) && row_in(
                        rect0,
                        cs0,
                        tgt,
                        jj,
                    ) && (cols_in_below(rect0, cs0, tgt, ii) < a || (cols_in_below(
                        rect0,
                        cs0,
                        tgt,
                        ii,
                    ) == a && rows_in_below(rect0, cs0, tgt, jj) < b)) {
                        recoloured(
                            old(self).cell_at(ii, jj),
                            composite_colour(rect0, cs0, tgt, *image, ii, jj),
                        )
                    } else {
                        old(self).cell_at(ii, jj)
                    }) by {
                        assert(self.view()[ii] == self.cells@[ii]@);
                        assert(pre.view()[ii] == pre.cells@[ii]@);
                        if ii == ci as int && jj == rj as int {
                            assert(cols_in_below(rect0, cs0, tgt, ii) == a);
                            assert(rows_in_below(rect0, cs0, tgt, jj) == b - 1);
                            assert(self.cell_at(ii, jj) == recoloured(
                                oldcell,
                                composite_colour(rect0, cs0, tgt, *image, ii, jj),
                            ));
                        } else {
                            assert(self.cell_at(ii, jj) == pre.cell_at(ii, jj));
                        }
                    }
                }
            }
            a += 1;
            proof {
                assert forall|ii: int, jj: int|
                    0 <= ii < old(self).spec_cols() && 0 <= jj < old(self).spec_rows() implies (
                #[trigger] self.cell_at(ii, jj)) == (if col_in(rect0, cs0, tgt, ii) && row_in(
                    rect0,
                    cs0,
                    tgt,
                    jj,
                ) && cols_in_below(rect0, cs0, tgt, ii) < a {
                    recoloured(
                        old(self).cell_at(ii, jj),
                        composite_colour(rect0, cs0, tgt, *image, ii, jj),
                    )
                } else {
                    old(self).cell_at(ii, jj)
                }) by {
                    if col_in(rect0, cs0, tgt, ii) && row_in(rect0, cs0, tgt, jj) {
                        lemma_rows_in_monotone(rect0, cs0, tgt, jj, gh as int);
                    }
                }
            }
        }
        proof {
            assert forall|ii: int, jj: int|
                0 <= ii < old(self).spec_cols() && 0 <= jj < old(self).spec_rows() implies (
            #[trigger] self.cell_at(ii, jj)) == (if col_in(rect0, cs0, tgt, ii) && row_in(
                rect0,
                cs0,
                tgt,
                jj,
            ) {
                recoloured(
                    old(self).cell_at(ii, jj),
                    composite_colour(rect0, cs0, tgt, *image, ii, jj),
                )
            } else {
                old(self).cell_at(ii, jj)
            }) by {
                if col_in(rect0, cs0, tgt, ii) {
                    lemma_cols_in_monotone(rect0, cs0, tgt, ii, gw as int);
                }
            }
            assert forall|ii: int, jj: int|
                0 <= ii < old(self).spec_cols() && 0 <= jj < old(self).spec_rows() implies (
            #[trigger] self.cell_at(ii, jj)).wf() && self.cell_at(ii, jj).position == old(
                self,
            ).cell_at(ii, jj).position by {
                if col_in(rect0, cs0, tgt, ii) && row_in(rect0, cs0, tgt, jj) {
                    crate::colour::lemma_pixel_colour_wf(
                        image.spec_pixel(
                            resample_index(
                                cols_in_below(rect0, cs0, tgt, ii),
                                cols_in_below(rect0, cs0, tgt, grid_cols(rect0, cs0)) - 1,
                                image.spec_width(),
                            ),
                            resample_index(
                                rows_in_below(rect0, cs0, tgt, jj),
                                rows_in_below(rect0, cs0, tgt, grid_rows(rect0, cs0)) - 1,
                                image.spec_height(),
                            ),
                        ),
                    );
                }
            }
        }
    }

    /// One pass of the patch rule over every cell: an unfinished cell whose
    /// centre the earliest covering patch reaches takes that patch's colour,
    /// with a small random jitter on each channel, and turns finished for
    /// good. Finished cells are never touched again, so repeating the pass
    /// can only colour cells still unfinished.
    #[verifier::loop_isolation(false)]
    #[verifier::rlimit(30)]
    pub fn apply_patches(
        &mut self,
        patches: &Vec<RustPatch>,
        rng: &mut rand_chacha::ChaCha8Rng,
    )
        requires
            old(self).wf(),
            forall|k: int| 0 <= k < patches@.len() ==> (#[trigger] patches@[k]).wf(),
        ensures
            final(self).spec_rect() == old(self).spec_rect(),
            final(self).spec_cell_size() == old(self).spec_cell_size(),
            final(self).wf(),
            final(self).view().len() == old(self).view().len(),
            forall|i: int|
                0 <= i < old(self).spec_cols() ==> (#[trigger] final(self).view()[i]).len() == old(
                    self,
                ).view()[i].len(),
            forall|i: int, j: int|
                0 <= i < old(self).spec_cols() && 0 <= j < old(self).spec_rows() ==> cell_ruled(
                    old(self).cell_at(i, j),
                    #[trigger] final(self).cell_at(i, j),
                    patches@,
                ),
    {
        let ghost g0: ImageGrid = *old(self);
        let gw: usize = self.cols();
        let gh: usize = self.rows();
        let n: usize = patches.len();
        let mut i: usize = 0;
        while i < gw
            invariant
                i <= gw,
                self.spec_rect() == g0.spec_rect(),
                self.spec_cell_size() == g0.spec_cell_size(),
                self.view().len() == g0.view().len(),
                forall|ii: int|
                    0 <= ii < g0.spec_cols() ==> (#[trigger] self.view()[ii]).len() == g0.view()[ii].len(),
                forall|ii: int, jj: int|
                    0 <= ii < g0.spec_cols() && 0 <= jj < g0.spec_rows() && (ii < i)
                        ==> cell_ruled(
                        g0.cell_at(ii, jj),
                        #[trigger] self.cell_at(ii, jj),
                        patches@,
                    ),
                forall|ii: int, jj: int|
                    0 <= ii < g0.spec_cols() && 0 <= jj < g0.spec_rows() && (ii >= i)
                        ==> (#[trigger] self.cell_at(ii, jj)) == g0.cell_at(ii, jj),
            decreases gw - i,
        {
            let mut j: usize = 0;
            while j < gh
                invariant
                    i < gw,
                    j <= gh,
                    self.spec_rect() == g0.spec_rect(),
                    self.spec_cell_size() == g0.spec_cell_size(),
                    self.view().len() == g0.view().len(),
                    forall|ii: int|
                        0 <= ii < g0.spec_cols() ==> (#[trigger] self.view()[ii]).len()
                            == g0.view()[ii].len(),
                    forall|ii: int, jj: int|
                        0 <= ii < g0.spec_cols() && 0 <= jj < g0.spec_rows() && (ii
                            < i || (ii == i && jj < j)) ==> cell_ruled(
                            g0.cell_at(ii, jj),
                            #[trigger] self.cell_at(ii, jj),
                            patches@,
                        ),
                    forall|ii: int, jj: int|
                        0 <= ii < g0.spec_cols() && 0 <= jj < g0.spec_rows() && (ii
                            > i || (ii == i && jj >= j)) ==> (#[trigger] self.cell_at(ii, jj))
                            == g0.cell_at(ii, jj),
                decreases gh - j,
            {
                proof {
                    assert(self.view()[i as int].len() == g0.view()[i as int].len());
                    assert(self.view()[i as int] == self.cells@[i as int]@);
                }
                let ghost pre = *self;
                let cell: Cell = self.cells[i][j];
                if !cell.finished {
                    let pos: Vec2i = cell.position;
                    proof {
                        assert(cell == self.cell_at(i as int, j as int));
                        assert(cell == g0.cell_at(i as int, j as int));
                        assert(g0.cell_at(i as int, j as int).position.x == lattice_x(
                            g0.spec_rect(),
                            g0.spec_cell_size(),
                            i as int,
                        ));
                        lemma_lattice_x_bounds(
                            g0.spec_rect(),
                            g0.spec_cell_size(),
                            i as int,
                        );
                        lemma_lattice_y_bounds(
                            g0.spec_rect(),
                            g0.spec_cell_size(),
                            j as int,
                        );
                    }
                    let mut hit: usize = n;
                    let mut p: usize = 0;
                    while p < n
                        invariant
                            p <= n,
                            hit == n || hit < p,
                            hit == n ==> forall|pp: int|
                                0 <= pp < p ==> !(#[trigger] patches@[pp]).spec_contains(pos),
                            hit < n ==> patches@[hit as int].spec_contains(pos) && forall|pp: int|
                                0 <= pp < hit ==> !(#[trigger] patches@[pp]).spec_contains(pos),
                        decreases n - p,
                    {
                        if hit == n {
                            if patches[p].contains(&pos) {
                                hit = p;
                            }
                        }
                        p += 1;
                    }
                    proof {
                        if hit == n {
                            lemma_first_containing(patches@, pos, 0, n as int);
                        } else {
                            lemma_first_containing(patches@, pos, 0, hit as int);
                        }
                        assert(hit as int == first_containing(patches@, pos, 0));
                    }
                    if hit < n {
                        let base: Hsla = *patches[hit].colour();
                        let dh: i64 = map_rng_range(next_u32(rng), -10_000, 10_000);
                        let ds: i64 = map_rng_range(next_u32(rng), -100, 100);
                        let dl: i64 = map_rng_range(next_u32(rng), -100, 100);
                        let jc: Hsla = Hsla {
                            hue: clamp_i64(base.hue + dh, 0, HUE_FULL),
                            saturation: clamp_i64(base.saturation + ds, 0, CHANNEL_FULL),
                            lightness: clamp_i64(base.lightness + dl, 0, CHANNEL_FULL),
                            alpha: base.alpha,
                        };
                        self.cells[i][j] = Cell { colour: jc, finished: true, ..cell };
                        proof {
                            assert(jittered_from(jc, patches@[hit as int].colour));
                        }
                    }
                }
                j += 1;
                proof {
                    assert forall|ii: int|
                        0 <= ii < g0.spec_cols() implies (#[trigger] self.view()[ii]).len()
                        == g0.view()[ii].len() by {
                        assert(self.view()[ii] == self.cells@[ii]@);
                        assert(pre.view()[ii] == pre.cells@[ii]@);
                    }
                    assert(self.view()[i as int] == self.cells@[i as int]@);
                    assert(pre.view()[i as int] == pre.cells@[i as int]@);
                    assert(cell_ruled(
                        g0.cell_at(i as int, j as int - 1),
                        self.cell_at(i as int, j as int - 1),
                        patches@,
                    ));
                    assert forall|ii: int, jj: int|
                        0 <= ii < g0.spec_cols() && 0 <= jj < g0.spec_rows() && (ii
                            > i || (ii == i && jj >= j)) implies (#[trigger] self.cell_at(ii, jj))
                        == g0.cell_at(ii, jj) by {
                        assert(self.view()[ii] == self.cells@[ii]@);
                        assert(pre.view()[ii] == pre.cells@[ii]@);
                        assert(pre.cell_at(ii, jj) == g0.cell_at(ii, jj));
                        assert(self.cell_at(ii, jj) == pre.cell_at(ii, jj));
                    }
                    assert forall|ii: int, jj: int|
                        0 <= ii < g0.spec_cols() && 0 <= jj < g0.spec_rows() && (ii < i || (ii == i
                            && jj < j)) implies cell_ruled(
                        g0.cell_at(ii, jj),
                        #[trigger] self.cell_at(ii, jj),
                        patches@,
                    ) by {
                        assert(self.view()[ii] == self.cells@[ii]@);
                        assert(pre.view()[ii] == pre.cells@[ii]@);
                        if ii < i || jj < j - 1 {
                            assert(self.cell_at(ii, jj) == pre.cell_at(ii, jj));
                            assert(cell_ruled(g0.cell_at(ii, jj), pre.cell_at(ii, jj), patches@));
                        }
                    }
                }
            }
            i += 1;
        }
        proof {
            assert forall|i2: int, j2: int|
                0 <= i2 < g0.spec_cols() && 0 <= j2 < g0.spec_rows() implies (
            #[trigger] self.cell_at(i2, j2)).wf() && self.cell_at(i2, j2).position == g0.cell_at(i2, j2).position by {
                assert(cell_ruled(g0.cell_at(i2, j2), self.cell_at(i2, j2), patches@));
                let c0 = g0.cell_at(i2, j2);
                let fm = first_containing(patches@, c0.position, 0);
                lemma_first_containing_range(patches@, c0.position, 0);
                if !c0.spec_finished() && fm < patches@.len() {
                    assert(patches@[fm].wf());
                }
            }
        }
    }
}

} // verus!
