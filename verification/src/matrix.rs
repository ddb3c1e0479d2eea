//! Dense row-major symbol matrices and canonical payload-bit placement.
use vstd::prelude::*;

use crate::cell::{cell_is_dark, Cell};
use crate::descriptor::LayoutFamily;
use crate::error::GlyphError;
use crate::layout::{
    capacity_spec, count_row, count_rows, data_capacity_bits_for, function_cell_for,
    function_cell_spec, is_data_module_for, is_data_spec, lemma_capacity_bound,
};

verus! {

/// Row-major index of `(x, y)` in a symbol `w` modules wide.
pub open spec fn lin(w: u16, x: int, y: int) -> int {
    y * (w as int) + x
}

/// Data-module positions among the first `n` modules of row `y`, left to right.
pub open spec fn row_positions(layout: LayoutFamily, w: u16, h: u16, y: u16, n: int) -> Seq<
    (int, int),
>
    decreases n,
{
    if n <= 0 {
        Seq::empty()
    } else {
        row_positions(layout, w, h, y, n - 1) + if is_data_spec(layout, w, h, (n - 1) as u16, y) {
            seq![(n - 1, y as int)]
        } else {
            Seq::empty()
        }
    }
}

/// Data-module positions of the first `rows` rows, in row-major order.
pub open spec fn rows_positions(layout: LayoutFamily, w: u16, h: u16, rows: int) -> Seq<(int, int)>
    decreases rows,
{
    if rows <= 0 {
        Seq::empty()
    } else {
        rows_positions(layout, w, h, rows - 1) + row_positions(
            layout,
            w,
            h,
            (rows - 1) as u16,
            w as int,
        )
    }
}

/// All data-module positions of a symbol in canonical (row-major) payload order.
pub open spec fn data_positions(layout: LayoutFamily, w: u16, h: u16) -> Seq<(int, int)> {
    rows_positions(layout, w, h, h as int)
}

/// The payload bits a matrix with these cells carries, in canonical order.
pub open spec fn read_bits_spec(layout: LayoutFamily, w: u16, h: u16, cells: Seq<Cell>) -> Seq<bool> {
    data_positions(layout, w, h).map_values(|p: (int, int)| cell_is_dark(cells[lin(w, p.0, p.1)]))
}

/// The bit written into data module `k` when writing `bits`: zero past their end.
pub open spec fn padded_bit(bits: Seq<bool>, k: int) -> bool {
    if k < bits.len() {
        bits[k]
    } else {
        false
    }
}

/// The freshly laid-out cell at `(x, y)`: its function cell, or light.
pub open spec fn fresh_cell(layout: LayoutFamily, w: u16, h: u16, x: int, y: int) -> Cell {
    match function_cell_spec(layout, w, h, x as u16, y as u16) {
        Some(c) => c,
        None => Cell::Light,
    }
}

pub(crate) proof fn lemma_row_positions(layout: LayoutFamily, w: u16, h: u16, y: u16, n: int)
    requires
        0 <= n <= w,
        y < h,
    ensures
        row_positions(layout, w, h, y, n).len() == count_row(layout, w, h, y, n),
        forall|k: int|
            0 <= k < row_positions(layout, w, h, y, n).len() ==> {
                let p = #[trigger] row_positions(layout, w, h, y, n)[k];
                &&& p.1 == y
                &&& 0 <= p.0 < n
                &&& is_data_spec(layout, w, h, p.0 as u16, y)
            },
        forall|k1: int, k2: int|
            0 <= k1 < k2 < row_positions(layout, w, h, y, n).len() ==> (#[trigger] row_positions(
                layout,
                w,
                h,
                y,
                n,
            )[k1]).0 < (#[trigger] row_positions(layout, w, h, y, n)[k2]).0,
    decreases n,
{
    if n > 0 {
        lemma_row_positions(layout, w, h, y, n - 1);
    }
}

proof fn lemma_lin_order(w: u16, x1: int, y1: int, x2: int, y2: int)
    requires
        0 <= x1 < w,
        0 <= x2 < w,
        0 <= y1 < y2,
    ensures
        lin(w, x1, y1) < lin(w, x2, y2),
{
    assert(y1 * (w as int) + x1 < y2 * (w as int) + x2) by (nonlinear_arith)
        requires
            0 <= x1 < w,
            0 <= x2,
            0 <= y1 < y2,
    ;
}

pub(crate) proof fn lemma_lin_bound(w: u16, h: u16, x: int, y: int)
    requires
        0 <= x < w,
        0 <= y < h,
    ensures
        0 <= lin(w, x, y) < (w as int) * (h as int),
{
    assert(0 <= y * (w as int) + x < (w as int) * (h as int)) by (nonlinear_arith)
        requires
            0 <= x < w,
            0 <= y < h,
    ;
}

proof fn lemma_rows_positions(layout: LayoutFamily, w: u16, h: u16, rows: int)
    requires
        0 <= rows <= h,
    ensures
        rows_positions(layout, w, h, rows).len() == count_rows(layout, w, h, rows),
        forall|k: int|
            0 <= k < rows_positions(layout, w, h, rows).len() ==> {
                let p = #[trigger] rows_positions(layout, w, h, rows)[k];
                &&& 0 <= p.1 < rows
                &&& 0 <= p.0 < w
                &&& is_data_spec(layout, w, h, p.0 as u16, p.1 as u16)
            },
        forall|k1: int, k2: int|
            0 <= k1 < k2 < rows_positions(layout, w, h, rows).len() ==> lin(
                w,
                (#[trigger] rows_positions(layout, w, h, rows)[k1]).0,
                rows_positions(layout, w, h, rows)[k1].1,
            ) < lin(
                w,
                (#[trigger] rows_positions(layout, w, h, rows)[k2]).0,
                rows_positions(layout, w, h, rows)[k2].1,
            ),
    decreases rows,
{
    if rows > 0 {
        let prev = rows_positions(layout, w, h, rows - 1);
        let row = row_positions(layout, w, h, (rows - 1) as u16, w as int);
        lemma_rows_positions(layout, w, h, rows - 1);
        lemma_row_positions(layout, w, h, (rows - 1) as u16, w as int);
        let all = rows_positions(layout, w, h, rows);
        assert(all == prev + row);
        assert forall|k1: int, k2: int| 0 <= k1 < k2 < all.len() implies lin(
            w,
            (#[trigger] all[k1]).0,
            all[k1].1,
        ) < lin(w, (#[trigger] all[k2]).0, all[k2].1) by {
            if k2 < prev.len() {
                assert(all[k1] == prev[k1]);
                assert(all[k2] == prev[k2]);
            } else if k1 < prev.len() {
                assert(all[k1] == prev[k1]);
                assert(all[k2] == row[k2 - prev.len()]);
                lemma_lin_order(w, all[k1].0, all[k1].1, all[k2].0, all[k2].1);
            } else {
                assert(all[k1] == row[k1 - prev.len()]);
                assert(all[k2] == row[k2 - prev.len()]);
            }
        }
        assert forall|k: int| 0 <= k < all.len() implies {
            let p = #[trigger] all[k];
            &&& 0 <= p.1 < rows
            &&& 0 <= p.0 < w
            &&& is_data_spec(layout, w, h, p.0 as u16, p.1 as u16)
        } by {
            if k < prev.len() {
                assert(all[k] == prev[k]);
            } else {
                assert(all[k] == row[k - prev.len()]);
            }
        }
    }
}

/// The data positions of a symbol: as many as its capacity, inside its bounds, on data
/// modules, and strictly increasing in row-major order.
pub proof fn lemma_data_positions(layout: LayoutFamily, w: u16, h: u16)
    ensures
        data_positions(layout, w, h).len() == capacity_spec(layout, w, h),
        forall|k: int|
            0 <= k < data_positions(layout, w, h).len() ==> {
                let p = #[trigger] data_positions(layout, w, h)[k];
                &&& 0 <= p.1 < h
                &&& 0 <= p.0 < w
                &&& is_data_spec(layout, w, h, p.0 as u16, p.1 as u16)
            },
        forall|k1: int, k2: int|
            0 <= k1 < k2 < data_positions(layout, w, h).len() ==> lin(
                w,
                (#[trigger] data_positions(layout, w, h)[k1]).0,
                data_positions(layout, w, h)[k1].1,
            ) < lin(
                w,
                (#[trigger] data_positions(layout, w, h)[k2]).0,
                data_positions(layout, w, h)[k2].1,
            ),
{
    lemma_rows_positions(layout, w, h, h as int);
}

/// Reading back the data modules of a matrix gives exactly as many bits as its
/// capacity, which is at most its module count.
pub proof fn lemma_read_back_len(m: SymbolMatrix)
    ensures
        m.data_bits().len() == capacity_spec(m.spec_layout(), m.spec_width(), m.spec_height()),
        capacity_spec(m.spec_layout(), m.spec_width(), m.spec_height()) <= (m.spec_width() as int) * (
        m.spec_height() as int),
{
    lemma_data_positions(m.spec_layout(), m.spec_width(), m.spec_height());
    crate::layout::lemma_capacity_bound(m.spec_layout(), m.spec_width(), m.spec_height());
}

/// Dense symbol matrix with row-major module storage.
#[derive(Debug, Clone, PartialEq, Eq)]
pub struct SymbolMatrix {
    width: u16,
    height: u16,
    layout: LayoutFamily,
    cells: Vec<Cell>,
}

impl View for SymbolMatrix {
    type V = Seq<Cell>;

    /// The row-major cells.
    closed spec fn view(&self) -> Seq<Cell> {
        self.cells@
    }
}

impl SymbolMatrix {
    /// One cell per module.
    pub closed spec fn well_formed(&self) -> bool {
        self.cells@.len() == (self.width as int) * (self.height as int)
    }

    /// Width in modules.
    pub closed spec fn spec_width(&self) -> u16 {
        self.width
    }

    /// Height in modules.
    pub closed spec fn spec_height(&self) -> u16 {
        self.height
    }

    /// Layout family.
    pub closed spec fn spec_layout(&self) -> LayoutFamily {
        self.layout
    }

    /// The payload bits this matrix carries in canonical order.
    pub open spec fn data_bits(&self) -> Seq<bool> {
        read_bits_spec(self.spec_layout(), self.spec_width(), self.spec_height(), self@)
    }

    /// A well-formed matrix has one cell per module.
    pub proof fn lemma_cell_count(&self)
        requires
            self.well_formed(),
        ensures
            self@.len() == (self.spec_width() as int) * (self.spec_height() as int),
    {
    }

    /// Create a light-filled ribbon-weave matrix with its function patterns.
    pub fn new(width: u16, height: u16) -> (r: SymbolMatrix)
        ensures
            r.well_formed(),
            r.spec_width() == width,
            r.spec_height() == height,
            r.spec_layout() == LayoutFamily::RibbonWeave,
            forall|x: int, y: int|
                0 <= x < width && 0 <= y < height ==> r@[lin(width, x, y)] == fresh_cell(
                    LayoutFamily::RibbonWeave,
                    width,
                    height,
                    x,
                    y,
                ),
    {
        SymbolMatrix::with_layout(width, height, LayoutFamily::RibbonWeave)
    }

    /// Create a light-filled matrix with an explicit layout family and its function
    /// patterns.
    pub fn with_layout(width: u16, height: u16, layout: LayoutFamily) -> (r: SymbolMatrix)
        ensures
            r.well_formed(),
            r.spec_width() == width,
            r.spec_height() == height,
            r.spec_layout() == layout,
            forall|x: int, y: int|
                0 <= x < width && 0 <= y < height ==> r@[lin(width, x, y)] == fresh_cell(
                    layout,
                    width,
                    height,
                    x,
                    y,
                ),
    {
        proof {
            assert((width as int) * (height as int) <= 65535 * 65535) by (nonlinear_arith)
                requires
                    width <= 65535,
                    height <= 65535,
            ;
        }
        let n = width as usize * height as usize;
        let mut cells: Vec<Cell> = Vec::new();
        let mut i: usize = 0;
        while i < n
            invariant
                i <= n,
                n == (width as int) * (height as int),
                cells@.len() == i,
                forall|j: int| 0 <= j < i ==> cells@[j] == Cell::Light,
            decreases n - i,
        {
            cells.push(Cell::Light);
            i = i + 1;
        }
        let mut matrix = SymbolMatrix { width, height, layout, cells };
        matrix.apply_function_patterns();
        proof {
            assert forall|x: int, y: int| #![trigger lin(width, x, y)] 0 <= x < width && 0 <= y < height implies matrix@[lin(
                width,
                x,
                y,
            )] == fresh_cell(layout, width, height, x, y) by {
                lemma_lin_bound(width, height, x, y);
            }
        }
        matrix
    }

    /// An independent copy of this matrix.
    pub(crate) fn duplicate(&self) -> (r: SymbolMatrix)
        ensures
            r@ == self@,
            r.spec_width() == self.spec_width(),
            r.spec_height() == self.spec_height(),
            r.spec_layout() == self.spec_layout(),
            r.well_formed() == self.well_formed(),
    {
        SymbolMatrix {
            width: self.width,
            height: self.height,
            layout: self.layout,
            cells: self.cells.clone(),
        }
    }

    /// Width in modules.
    pub fn width(&self) -> (r: u16)
        ensures
            r == self.spec_width(),
    {
        self.width
    }

    /// Height in modules.
    pub fn height(&self) -> (r: u16)
        ensures
            r == self.spec_height(),
    {
        self.height
    }

    /// Layout family used by this matrix.
    pub fn layout(&self) -> (r: LayoutFamily)
        ensures
            r == self.spec_layout(),
    {
        self.layout
    }

    /// Immutable row-major cell slice.
    pub fn cells(&self) -> (r: &[Cell])
        requires
            self.well_formed(),
        ensures
            r@ == self@,
            r@.len() == (self.spec_width() as int) * (self.spec_height() as int),
    {
        self.cells.as_slice()
    }

    /// Read a matrix cell.
    pub fn get(&self, x: u16, y: u16) -> (r: Result<Cell, GlyphError>)
        requires
            self.well_formed(),
        ensures
            x >= self.spec_width() || y >= self.spec_height() ==> r == Err::<Cell, GlyphError>(
                GlyphError::MatrixBounds {
                    x,
                    y,
                    width: self.spec_width(),
                    height: self.spec_height(),
                },
            ),
            x < self.spec_width() && y < self.spec_height() ==> r == Ok::<Cell, GlyphError>(
                self@[lin(self.spec_width(), x as int, y as int)],
            ),
    {
        let index = match self.index(x, y) {
            Ok(i) => i,
            Err(e) => return Err(e),
        };
        Ok(self.cells[index])
    }

    /// Set a matrix cell.
    pub fn set(&mut self, x: u16, y: u16, cell: Cell) -> (r: Result<(), GlyphError>)
        requires
            old(self).well_formed(),
        ensures
            final(self).well_formed(),
            final(self).spec_width() == old(self).spec_width(),
            final(self).spec_height() == old(self).spec_height(),
            final(self).spec_layout() == old(self).spec_layout(),
            x >= old(self).spec_width() || y >= old(self).spec_height() ==> r == Err::<
                (),
                GlyphError,
            >(
                GlyphError::MatrixBounds {
                    x,
                    y,
                    width: old(self).spec_width(),
                    height: old(self).spec_height(),
                },
            ) && final(self)@ == old(self)@,
            x < old(self).spec_width() && y < old(self).spec_height() ==> r == Ok::<(), GlyphError>(())
                && final(self)@ == old(self)@.update(
                lin(old(self).spec_width(), x as int, y as int),
                cell,
            ),
    {
        let index = match self.index(x, y) {
            Ok(i) => i,
            Err(e) => return Err(e),
        };
        self.cells.set(index, cell);
        Ok(())
    }

    /// Apply canonical synchronization and orientation patterns: every function module
    /// receives its function cell, every other module is left as it was.
    pub fn apply_function_patterns(&mut self)
        requires
            old(self).well_formed(),
        ensures
            final(self).well_formed(),
            final(self).spec_width() == old(self).spec_width(),
            final(self).spec_height() == old(self).spec_height(),
            final(self).spec_layout() == old(self).spec_layout(),
            final(self)@.len() == old(self)@.len(),
            forall|x: int, y: int|
                0 <= x < old(self).spec_width() && 0 <= y < old(self).spec_height() ==> final(self)@[lin(old(self).spec_width(), x, y)] == match function_cell_spec(
                    old(self).spec_layout(),
                    old(self).spec_width(),
                    old(self).spec_height(),
                    x as u16,
                    y as u16,
                ) {
                    Some(c) => c,
                    None => old(self)@[lin(old(self).spec_width(), x, y)],
                },
    {
        let width = self.width;
        let height = self.height;
        let layout = self.layout;
        let ghost old_cells = self.cells@;
        let mut y: u16 = 0;
        while y < height
            invariant
                width == self.width,
                height == self.height,
                layout == self.layout,
                y <= height,
                self.cells@.len() == old_cells.len(),
                old_cells.len() == (width as int) * (height as int),
                forall|xx: int, yy: int|
                    0 <= xx < width && 0 <= yy < height ==> #[trigger] self.cells@[lin(
                        width,
                        xx,
                        yy,
                    )] == if yy < y {
                        match function_cell_spec(layout, width, height, xx as u16, yy as u16) {
                            Some(c) => c,
                            None => old_cells[lin(width, xx, yy)],
                        }
                    } else {
                        old_cells[lin(width, xx, yy)]
                    },
            decreases height - y,
        {
            let mut x: u16 = 0;
            while x < width
                invariant
                    width == self.width,
                    height == self.height,
                    layout == self.layout,
                    y < height,
                    x <= width,
                    self.cells@.len() == old_cells.len(),
                    old_cells.len() == (width as int) * (height as int),
                    forall|xx: int, yy: int|
                        0 <= xx < width && 0 <= yy < height ==> #[trigger] self.cells@[lin(
                            width,
                            xx,
                            yy,
                        )] == if yy < y || (yy == y && xx < x) {
                            match function_cell_spec(layout, width, height, xx as u16, yy as u16) {
                                Some(c) => c,
                                None => old_cells[lin(width, xx, yy)],
                            }
                        } else {
                            old_cells[lin(width, xx, yy)]
                        },
                decreases width - x,
            {
                let cell = function_cell_for(layout, width, height, x, y);
                match cell {
                    Some(c) => {
                        let index = self.linear_index(x, y);
                        let ghost before = self.cells@;
                        self.cells.set(index, c);
                        proof {
                            assert forall|xx: int, yy: int| #![trigger lin(width, xx, yy)]
                                0 <= xx < width && 0 <= yy < height && (xx != x || yy != y) implies lin(
                                width,
                                xx,
                                yy,
                            ) != lin(width, x as int, y as int) by {
                                if yy < y {
                                    lemma_lin_order(width, xx, yy, x as int, y as int);
                                } else if yy > y {
                                    lemma_lin_order(width, x as int, y as int, xx, yy);
                                }
                            }
                            assert forall|xx: int, yy: int| #![trigger lin(width, xx, yy)]
                                0 <= xx < width && 0 <= yy < height implies 0 <= lin(
                                width,
                                xx,
                                yy,
                            ) < old_cells.len() by {
                                lemma_lin_bound(width, height, xx, yy);
                            }
                        }
                    },
                    None => {},
                }
                x = x + 1;
            }
            y = y + 1;
        }
    }

    /// Number of payload-capable modules.
    pub fn data_capacity_bits(&self) -> (r: usize)
        ensures
            r == capacity_spec(self.spec_layout(), self.spec_width(), self.spec_height()),
    {
        data_capacity_bits_for(self.layout, self.width, self.height)
    }

    /// Fill the data modules, in canonical order, from `bits`; data modules past the
    /// end of `bits` receive a zero bit. Returns the number of data modules written.
    #[verifier::rlimit(40)]
    pub fn write_data_bits(&mut self, bits: &[bool]) -> (written: usize)
        requires
            old(self).well_formed(),
        ensures
            final(self).well_formed(),
            final(self).spec_width() == old(self).spec_width(),
            final(self).spec_height() == old(self).spec_height(),
            final(self).spec_layout() == old(self).spec_layout(),
            final(self)@.len() == old(self)@.len(),
            written == capacity_spec(
                old(self).spec_layout(),
                old(self).spec_width(),
                old(self).spec_height(),
            ),
            forall|k: int|
                0 <= k < data_positions(
                    old(self).spec_layout(),
                    old(self).spec_width(),
                    old(self).spec_height(),
                ).len() ==> final(self)@[lin(
                    old(self).spec_width(),
                    (#[trigger] data_positions(
                        old(self).spec_layout(),
                        old(self).spec_width(),
                        old(self).spec_height(),
                    )[k]).0,
                    data_positions(
                        old(self).spec_layout(),
                        old(self).spec_width(),
                        old(self).spec_height(),
                    )[k].1,
                )] == Cell::Data(padded_bit(bits@, k)),
            forall|x: int, y: int|
                0 <= x < old(self).spec_width() && 0 <= y < old(self).spec_height()
                    && !is_data_spec(
                    old(self).spec_layout(),
                    old(self).spec_width(),
                    old(self).spec_height(),
                    x as u16,
                    y as u16,
                ) ==> final(self)@[lin(old(self).spec_width(), x, y)] == old(self)@[lin(
                    old(self).spec_width(),
                    x,
                    y,
                )],
    {
        proof {
            lemma_capacity_bound(self.layout, self.width, self.height);
            lemma_data_positions(self.layout, self.width, self.height);
        }
        let width = self.width;
        let height = self.height;
        let layout = self.layout;
        let ghost old_cells = self.cells@;
        let ghost all = data_positions(layout, width, height);
        let mut written: usize = 0;
        let mut y: u16 = 0;
        while y < height
            invariant
                width == self.width,
                height == self.height,
                layout == self.layout,
                y <= height,
                self.cells@.len() == old_cells.len(),
                old_cells.len() == (width as int) * (height as int),
                all == data_positions(layout, width, height),
                all.len() == capacity_spec(layout, width, height),
                capacity_spec(layout, width, height) <= (width as int) * (height as int),
                written == count_rows(layout, width, height, y as int),
                forall|k: int|
                    0 <= k < written ==> self.cells@[lin(width, (#[trigger] all[k]).0, all[k].1)]
                        == Cell::Data(padded_bit(bits@, k)),
                forall|xx: int, yy: int|
                    0 <= xx < width && 0 <= yy < height && (yy >= y || !is_data_spec(
                        layout,
                        width,
                        height,
                        xx as u16,
                        yy as u16,
                    )) ==> #[trigger] self.cells@[lin(width, xx, yy)] == old_cells[lin(
                        width,
                        xx,
                        yy,
                    )],
            decreases height - y,
        {
            let mut x: u16 = 0;
            while x < width
                invariant
                    width == self.width,
                    height == self.height,
                    layout == self.layout,
                    y < height,
                    x <= width,
                    self.cells@.len() == old_cells.len(),
                    old_cells.len() == (width as int) * (height as int),
                    all == data_positions(layout, width, height),
                    all.len() == capacity_spec(layout, width, height),
                    capacity_spec(layout, width, height) <= (width as int) * (height as int),
                    written == count_rows(layout, width, height, y as int) + count_row(
                        layout,
                        width,
                        height,
                        y,
                        x as int,
                    ),
                    forall|k: int|
                        0 <= k < written ==> self.cells@[lin(
                            width,
                            (#[trigger] all[k]).0,
                            all[k].1,
                        )] == Cell::Data(padded_bit(bits@, k)),
                    forall|xx: int, yy: int|
                        0 <= xx < width && 0 <= yy < height && (yy > y || (yy == y && xx >= x)
                            || !is_data_spec(layout, width, height, xx as u16, yy as u16))
                            ==> #[trigger] self.cells@[lin(width, xx, yy)] == old_cells[lin(
                            width,
                            xx,
                            yy,
                        )],
                decreases width - x,
            {
                if is_data_module_for(layout, width, height, x, y) {
                    proof {
                        lemma_next_position(layout, width, height, y, x as int);
                        lemma_data_positions(layout, width, height);
                        assert((width as int) * (height as int) <= 65535 * 65535) by (
                        nonlinear_arith)
                            requires
                                width <= 65535,
                                height <= 65535,
                        ;
                    }
                    let bit = if written < bits.len() {
                        bits[written]
                    } else {
                        false
                    };
                    let index = self.linear_index(x, y);
                    let ghost before = self.cells@;
                    self.cells.set(index, Cell::Data(bit));
                    proof {
                        lemma_write_step(
                            width,
                            height,
                            x as int,
                            y as int,
                            all,
                            written as int,
                            before,
                            self.cells@,
                        );
                    }
                    written = written + 1;
                } else {
                    proof {
                        lemma_prefix_within(layout, width, height, y, x as int);
                    }
                }
                x = x + 1;
            }
            y = y + 1;
        }
        written
    }

    /// Extract payload bits in canonical module order.
    #[verifier::rlimit(40)]
    pub fn read_data_bits(&self) -> (bits: Vec<bool>)
        requires
            self.well_formed(),
        ensures
            bits@ == self.data_bits(),
    {
        proof {
            lemma_capacity_bound(self.layout, self.width, self.height);
            lemma_data_positions(self.layout, self.width, self.height);
        }
        let width = self.width;
        let height = self.height;
        let layout = self.layout;
        let ghost all = data_positions(layout, width, height);
        let ghost target = read_bits_spec(layout, width, height, self.cells@);
        let mut bits: Vec<bool> = Vec::new();
        let mut y: u16 = 0;
        while y < height
            invariant
                width == self.width,
                height == self.height,
                layout == self.layout,
                y <= height,
                self.cells@.len() == (width as int) * (height as int),
                all == data_positions(layout, width, height),
                target == read_bits_spec(layout, width, height, self.cells@),
                target.len() == all.len(),
                all.len() == capacity_spec(layout, width, height),
                capacity_spec(layout, width, height) <= (width as int) * (height as int),
                bits@.len() == count_rows(layout, width, height, y as int),
                forall|k: int| 0 <= k < bits@.len() ==> bits@[k] == target[k],
            decreases height - y,
        {
            let mut x: u16 = 0;
            while x < width
                invariant
                    width == self.width,
                    height == self.height,
                    layout == self.layout,
                    y < height,
                    x <= width,
                    self.cells@.len() == (width as int) * (height as int),
                    all == data_positions(layout, width, height),
                    target == read_bits_spec(layout, width, height, self.cells@),
                    target.len() == all.len(),
                    all.len() == capacity_spec(layout, width, height),
                    capacity_spec(layout, width, height) <= (width as int) * (height as int),
                    bits@.len() == count_rows(layout, width, height, y as int) + count_row(
                        layout,
                        width,
                        height,
                        y,
                        x as int,
                    ),
                    forall|k: int| 0 <= k < bits@.len() ==> bits@[k] == target[k],
                decreases width - x,
            {
                if is_data_module_for(layout, width, height, x, y) {
                    proof {
                        lemma_next_position(layout, width, height, y, x as int);
                    }
                    let index = self.linear_index(x, y);
                    let dark = self.cells[index].is_dark();
                    proof {
                        let n = bits@.len() as int;
                        assert(target[n] == cell_is_dark(self.cells@[lin(width, all[n].0, all[n].1)]));
                    }
                    bits.push(dark);
                } else {
                    proof {
                        lemma_prefix_within(layout, width, height, y, x as int);
                    }
                }
                x = x + 1;
            }
            y = y + 1;
        }
        proof {
            assert(bits@ =~= target);
        }
        bits
    }

    fn index(&self, x: u16, y: u16) -> (r: Result<usize, GlyphError>)
        requires
            self.well_formed(),
        ensures
            x >= self.spec_width() || y >= self.spec_height() ==> r == Err::<usize, GlyphError>(
                GlyphError::MatrixBounds {
                    x,
                    y,
                    width: self.spec_width(),
                    height: self.spec_height(),
                },
            ),
            x < self.spec_width() && y < self.spec_height() ==> r is Ok,
            r matches Ok(i) ==> i == lin(self.spec_width(), x as int, y as int) && i < self@.len(),
    {
        if x >= self.width || y >= self.height {
            return Err(
                GlyphError::MatrixBounds { x, y, width: self.width, height: self.height },
            );
        }
        Ok(self.linear_index(x, y))
    }

    fn linear_index(&self, x: u16, y: u16) -> (r: usize)
        requires
            self.well_formed(),
            x < self.spec_width(),
            y < self.spec_height(),
        ensures
            r == lin(self.spec_width(), x as int, y as int),
            r < self@.len(),
    {
        proof {
            lemma_lin_bound(self.width, self.height, x as int, y as int);
            assert((y as int) * (self.width as int) <= 65535 * 65535) by (nonlinear_arith)
                requires
                    y <= 65535,
                    self.width <= 65535,
            ;
        }
        y as usize * self.width as usize + x as usize
    }
}

/// Extending a row prefix by one module adds that module when it carries data.
pub(crate) proof fn lemma_prefix_within(layout: LayoutFamily, w: u16, h: u16, y: u16, x: int)
    requires
        0 <= x < w,
        y < h,
    ensures
        row_positions(layout, w, h, y, x + 1) == row_positions(layout, w, h, y, x) + if is_data_spec(
            layout,
            w,
            h,
            x as u16,
            y,
        ) {
            seq![(x, y as int)]
        } else {
            Seq::empty()
        },
        count_row(layout, w, h, y, x + 1) == count_row(layout, w, h, y, x) + if is_data_spec(
            layout,
            w,
            h,
            x as u16,
            y,
        ) {
            1nat
        } else {
            0nat
        },
{
}


proof fn lemma_row_prefix(layout: LayoutFamily, w: u16, h: u16, y: u16, n: int, m: int)
    requires
        0 <= n <= m,
    ensures
        row_positions(layout, w, h, y, n).len() <= row_positions(layout, w, h, y, m).len(),
        row_positions(layout, w, h, y, m).subrange(0, row_positions(layout, w, h, y, n).len() as int)
            == row_positions(layout, w, h, y, n),
    decreases m,
{
    if m > n {
        lemma_row_prefix(layout, w, h, y, n, m - 1);
        let a = row_positions(layout, w, h, y, m - 1);
        let b = row_positions(layout, w, h, y, m);
        let c = row_positions(layout, w, h, y, n);
        assert(b.subrange(0, a.len() as int) =~= a);
        assert(b.subrange(0, c.len() as int) =~= a.subrange(0, c.len() as int));
    } else {
        assert(row_positions(layout, w, h, y, m).subrange(
            0,
            row_positions(layout, w, h, y, n).len() as int,
        ) =~= row_positions(layout, w, h, y, n));
    }
}

proof fn lemma_rows_prefix(layout: LayoutFamily, w: u16, h: u16, r1: int, r2: int)
    requires
        0 <= r1 <= r2,
    ensures
        rows_positions(layout, w, h, r1).len() <= rows_positions(layout, w, h, r2).len(),
        rows_positions(layout, w, h, r2).subrange(0, rows_positions(layout, w, h, r1).len() as int)
            == rows_positions(layout, w, h, r1),
    decreases r2,
{
    if r2 > r1 {
        lemma_rows_prefix(layout, w, h, r1, r2 - 1);
        let a = rows_positions(layout, w, h, r2 - 1);
        let b = rows_positions(layout, w, h, r2);
        let c = rows_positions(layout, w, h, r1);
        assert(b.subrange(0, a.len() as int) =~= a);
        assert(b.subrange(0, c.len() as int) =~= a.subrange(0, c.len() as int));
    } else {
        assert(rows_positions(layout, w, h, r2).subrange(
            0,
            rows_positions(layout, w, h, r1).len() as int,
        ) =~= rows_positions(layout, w, h, r1));
    }
}

/// The positions of the rows before `y` and of the first `x` modules of row `y` are the
/// leading data positions.
pub(crate) proof fn lemma_position_prefix(layout: LayoutFamily, w: u16, h: u16, y: u16, x: int)
    requires
        y < h,
        0 <= x <= w,
    ensures
        count_rows(layout, w, h, y as int) + count_row(layout, w, h, y, x) <= data_positions(
            layout,
            w,
            h,
        ).len(),
        rows_positions(layout, w, h, y as int) + row_positions(layout, w, h, y, x)
            == data_positions(layout, w, h).subrange(
            0,
            (count_rows(layout, w, h, y as int) + count_row(layout, w, h, y, x)) as int,
        ),
{
    let pre = rows_positions(layout, w, h, y as int);
    let row = row_positions(layout, w, h, y, x);
    let full_row = row_positions(layout, w, h, y, w as int);
    let next = rows_positions(layout, w, h, y + 1);
    let all = data_positions(layout, w, h);
    lemma_rows_positions(layout, w, h, y as int);
    lemma_row_positions(layout, w, h, y, x);
    lemma_row_positions(layout, w, h, y, w as int);
    lemma_row_prefix(layout, w, h, y, x, w as int);
    lemma_rows_prefix(layout, w, h, y + 1, h as int);
    assert(next == pre + full_row);
    assert(all.subrange(0, (pre + row).len() as int) =~= next.subrange(0, (pre + row).len() as int));
    assert(next.subrange(0, (pre + row).len() as int) =~= pre + row);
}

/// At a data module `(x, y)`, the next data position is `(x, y)` and the counts advance.
pub(crate) proof fn lemma_next_position(layout: LayoutFamily, w: u16, h: u16, y: u16, x: int)
    requires
        y < h,
        0 <= x < w,
        is_data_spec(layout, w, h, x as u16, y),
    ensures
        count_rows(layout, w, h, y as int) + count_row(layout, w, h, y, x) < data_positions(
            layout,
            w,
            h,
        ).len(),
        data_positions(layout, w, h)[(count_rows(layout, w, h, y as int) + count_row(
            layout,
            w,
            h,
            y,
            x,
        )) as int] == (x, y as int),
        count_row(layout, w, h, y, x + 1) == count_row(layout, w, h, y, x) + 1,
{
    lemma_prefix_within(layout, w, h, y, x);
    lemma_position_prefix(layout, w, h, y, x + 1);
    lemma_row_positions(layout, w, h, y, x);
    let n = (count_rows(layout, w, h, y as int) + count_row(layout, w, h, y, x)) as int;
    let all = data_positions(layout, w, h);
    let s = rows_positions(layout, w, h, y as int) + row_positions(layout, w, h, y, x + 1);
    lemma_rows_positions(layout, w, h, y as int);
    assert(s[n] == (x, y as int));
    assert(all.subrange(0, n + 1)[n] == all[n]);
}

/// Writing data position `n` keeps every earlier position's cell and every other cell.
proof fn lemma_write_step(
    w: u16,
    h: u16,
    x: int,
    y: int,
    all: Seq<(int, int)>,
    n: int,
    before: Seq<Cell>,
    after: Seq<Cell>,
)
    requires
        0 <= x < w,
        0 <= y < h,
        0 <= n < all.len(),
        all[n] == (x, y),
        forall|k: int| 0 <= k < all.len() ==> 0 <= (#[trigger] all[k]).0 < w && 0 <= all[k].1 < h,
        before.len() == (w as int) * (h as int),
        after == before.update(lin(w, x, y), after[lin(w, x, y)]),
        forall|k1: int, k2: int|
            0 <= k1 < k2 < all.len() ==> lin(w, (#[trigger] all[k1]).0, all[k1].1) < lin(
                w,
                (#[trigger] all[k2]).0,
                all[k2].1,
            ),
    ensures
        forall|k: int|
            0 <= k < n ==> after[lin(w, (#[trigger] all[k]).0, all[k].1)] == before[lin(
                w,
                all[k].0,
                all[k].1,
            )],
        forall|xx: int, yy: int|
            0 <= xx < w && 0 <= yy < h && (xx != x || yy != y) ==> #[trigger] after[lin(w, xx, yy)]
                == before[lin(w, xx, yy)],
{
    lemma_lin_bound(w, h, x, y);
    assert forall|k: int| 0 <= k < n implies after[lin(w, (#[trigger] all[k]).0, all[k].1)]
        == before[lin(w, all[k].0, all[k].1)] by {
        assert(lin(w, all[k].0, all[k].1) < lin(w, all[n].0, all[n].1));
        lemma_lin_bound(w, h, all[k].0, all[k].1);
    }
    assert forall|xx: int, yy: int|
        0 <= xx < w && 0 <= yy < h && (xx != x || yy != y) implies #[trigger] after[lin(w, xx, yy)]
        == before[lin(w, xx, yy)] by {
        lemma_lin_bound(w, h, xx, yy);
        if yy < y {
            lemma_lin_order(w, xx, yy, x, y);
        } else if yy > y {
            lemma_lin_order(w, x, y, xx, yy);
        }
    }
}

/// Reading the payload bits back after writing `bits` gives `bits` followed by zero bits,
/// cut to the capacity.
pub proof fn lemma_write_read(m: SymbolMatrix, bits: Seq<bool>)
    requires
        forall|k: int|
            0 <= k < data_positions(m.spec_layout(), m.spec_width(), m.spec_height()).len()
                ==> m@[lin(
                m.spec_width(),
                (#[trigger] data_positions(m.spec_layout(), m.spec_width(), m.spec_height())[k]).0,
                data_positions(m.spec_layout(), m.spec_width(), m.spec_height())[k].1,
            )] == Cell::Data(padded_bit(bits, k)),
    ensures
        m.data_bits() == Seq::new(
            capacity_spec(m.spec_layout(), m.spec_width(), m.spec_height()),
            |k: int| padded_bit(bits, k),
        ),
{
    lemma_data_positions(m.spec_layout(), m.spec_width(), m.spec_height());
    let all = data_positions(m.spec_layout(), m.spec_width(), m.spec_height());
    assert forall|k: int| 0 <= k < all.len() implies m.data_bits()[k] == padded_bit(bits, k) by {
        assert(m@[lin(m.spec_width(), all[k].0, all[k].1)] == Cell::Data(padded_bit(bits, k)));
    }
    assert(m.data_bits() =~= Seq::new(
        capacity_spec(m.spec_layout(), m.spec_width(), m.spec_height()),
        |k: int| padded_bit(bits, k),
    ));
}

} // verus!
