//! Table paragraphs: the segments of a table are its cells, row by row.

use crate::pgh::{same_frame, PghModel, PghView, TableCell, TableInfo};
use crate::segment::{PghSegment, SegModel};
use vstd::arithmetic::div_mod::{lemma_div_multiples_vanish_fancy, lemma_fundamental_div_mod};
use vstd::arithmetic::mul::{lemma_mul_inequality, lemma_mul_is_commutative, lemma_mul_is_distributive_add};
use vstd::prelude::*;

verus! {

/// A rectangle of cells, its bounds included.
pub struct CellSpan {
    pub row_lo: int,
    pub row_hi: int,
    pub col_lo: int,
    pub col_hi: int,
}

pub open spec fn int_min(a: int, b: int) -> int {
    if a <= b {
        a
    } else {
        b
    }
}

pub open spec fn int_max(a: int, b: int) -> int {
    if a >= b {
        a
    } else {
        b
    }
}

impl CellSpan {
    pub open spec fn holds(self, row: int, col: int) -> bool {
        self.row_lo <= row <= self.row_hi && self.col_lo <= col <= self.col_hi
    }

    pub open spec fn rows(self) -> int {
        self.row_hi - self.row_lo + 1
    }

    pub open spec fn cols(self) -> int {
        self.col_hi - self.col_lo + 1
    }
}

impl TableInfo {
    /// The row of the cell held by segment `seg`.
    pub open spec fn row_of(self, seg: int) -> int {
        seg / (self.col_count as int)
    }

    /// The column of the cell held by segment `seg`.
    pub open spec fn col_of(self, seg: int) -> int {
        seg % (self.col_count as int)
    }

    /// The segment that holds the cell at `row` and `col`.
    pub open spec fn seg_of(self, row: int, col: int) -> int {
        row * self.col_count + col
    }

    /// The smallest rectangle of cells that holds the cells of segments
    /// `s1` and `s2`.
    pub open spec fn span(self, s1: int, s2: int) -> CellSpan {
        CellSpan {
            row_lo: int_min(self.row_of(s1), self.row_of(s2)),
            row_hi: int_max(self.row_of(s1), self.row_of(s2)),
            col_lo: int_min(self.col_of(s1), self.col_of(s2)),
            col_hi: int_max(self.col_of(s1), self.col_of(s2)),
        }
    }
}

/// `n` empty text segments.
pub open spec fn empty_cells(n: int) -> Seq<SegModel> {
    Seq::new(n as nat, |i: int| SegModel::of_text(Seq::empty()))
}

impl PghModel {
    /// Whether segment `seg` lies in the rectangle of cells spanned by
    /// segments `s1` and `s2`. Without a table shape no segment does.
    pub open spec fn in_table_select(self, seg: int, s1: int, s2: int) -> bool {
        match self.table_info {
            Some(t) => t.col_count > 0 && t.span(s1, s2).holds(t.row_of(seg), t.col_of(seg)),
            None => false,
        }
    }

    /// Whether every cell of `row` that the paragraph holds is empty.
    pub open spec fn table_row_empty(self, row: int) -> bool {
        match self.table_info {
            Some(t) => forall|col: int|
                0 <= col < t.col_count ==> (#[trigger] self.segment_text(t.seg_of(row, col))).len()
                    == 0,
            None => true,
        }
    }

    /// Whether every cell of column `col` that the paragraph holds is empty.
    pub open spec fn table_col_empty(self, col: int) -> bool {
        match self.table_info {
            Some(t) => forall|row: int|
                0 <= row < t.row_count ==> (#[trigger] self.segment_text(t.seg_of(row, col))).len()
                    == 0,
            None => true,
        }
    }

    /// The table with a row of empty cells put in as row `row`.
    pub open spec fn with_row_inserted(self, row: int) -> PghModel {
        match self.table_info {
            Some(t) => PghModel {
                segs: self.segs.take(row * t.col_count) + empty_cells(t.col_count as int)
                    + self.segs.skip(row * t.col_count),
                table_info: Some(TableInfo { row_count: (t.row_count + 1) as usize, ..t }),
                ..self
            },
            None => self,
        }
    }

    /// The table without row `row`.
    pub open spec fn with_row_deleted(self, row: int) -> PghModel {
        match self.table_info {
            Some(t) => PghModel {
                segs: self.segs.take(row * t.col_count) + self.segs.skip((row + 1) * t.col_count),
                table_info: Some(TableInfo { row_count: (t.row_count - 1) as usize, ..t }),
                ..self
            },
            None => self,
        }
    }

    /// The table with a column of empty cells put in as column `col`.
    pub open spec fn with_col_inserted(self, col: int) -> PghModel {
        match self.table_info {
            Some(t) => PghModel {
                segs: Seq::new(
                    (t.row_count * (t.col_count + 1)) as nat,
                    |k: int|
                        {
                            let r = k / (t.col_count + 1);
                            let c = k % (t.col_count + 1);
                            if c < col {
                                self.segs[r * t.col_count + c]
                            } else if c == col {
                                SegModel::of_text(Seq::empty())
                            } else {
                                self.segs[r * t.col_count + c - 1]
                            }
                        },
                ),
                table_info: Some(TableInfo { col_count: (t.col_count + 1) as usize, ..t }),
                ..self
            },
            None => self,
        }
    }

    /// The table without column `col`.
    pub open spec fn with_col_deleted(self, col: int) -> PghModel {
        match self.table_info {
            Some(t) => PghModel {
                segs: Seq::new(
                    (t.row_count * (t.col_count - 1)) as nat,
                    |k: int|
                        {
                            let r = k / (t.col_count - 1);
                            let c = k % (t.col_count - 1);
                            if c < col {
                                self.segs[r * t.col_count + c]
                            } else {
                                self.segs[r * t.col_count + c + 1]
                            }
                        },
                ),
                table_info: Some(TableInfo { col_count: (t.col_count - 1) as usize, ..t }),
                ..self
            },
            None => self,
        }
    }
}

impl PghModel {
    /// The number of rows of the table shape, 0 without one.
    pub open spec fn row_count(self) -> int {
        match self.table_info {
            Some(t) => t.row_count as int,
            None => 0,
        }
    }

    /// The number of columns of the table shape, 0 without one.
    pub open spec fn col_count(self) -> int {
        match self.table_info {
            Some(t) => t.col_count as int,
            None => 0,
        }
    }

    /// The table after the rows from `hi` down to `lo` that are empty in
    /// `origin` have been taken out one by one, one row always being left.
    pub open spec fn rows_dropped(self, origin: PghModel, lo: int, hi: int) -> PghModel
        decreases hi - lo + 1,
    {
        if hi < lo {
            self
        } else {
            let next = if origin.table_row_empty(hi) && self.row_count() > 1 {
                self.with_row_deleted(hi)
            } else {
                self
            };
            next.rows_dropped(origin, lo, hi - 1)
        }
    }

    /// The table after the columns from `hi` down to `lo` that are empty in
    /// `origin` have been taken out one by one, one column always being
    /// left.
    pub open spec fn cols_dropped(self, origin: PghModel, lo: int, hi: int) -> PghModel
        decreases hi - lo + 1,
    {
        if hi < lo {
            self
        } else {
            let next = if origin.table_col_empty(hi) && self.col_count() > 1 {
                self.with_col_deleted(hi)
            } else {
                self
            };
            next.cols_dropped(origin, lo, hi - 1)
        }
    }

    /// The table without the empty rows and columns of the rectangle that
    /// segments `s1` and `s2` span. Rows go only where the rectangle has
    /// the table's full width, columns only where it has its full height;
    /// rows past the table's last are left alone.
    pub open spec fn with_empty_dropped(self, s1: int, s2: int) -> PghModel {
        match self.table_info {
            Some(t) => {
                let sp = t.span(s1, s2);
                let rows_done = if sp.col_lo == 0 && sp.col_hi + 1 == t.col_count {
                    self.rows_dropped(self, sp.row_lo, int_min(sp.row_hi, t.row_count - 1))
                } else {
                    self
                };
                if sp.row_lo == 0 && sp.row_hi + 1 == t.row_count {
                    rows_done.cols_dropped(self, sp.col_lo, sp.col_hi)
                } else {
                    rows_done
                }
            },
            None => self,
        }
    }

    /// The table with the cells of table `change` written over its cells
    /// from the cell of segment `segment` on, grown by empty cells to the
    /// right and below as far as `change` reaches.
    pub open spec fn merged(self, segment: int, change: PghModel) -> PghModel {
        match (self.table_info, change.table_info) {
            (Some(t), Some(ch)) => {
                let r0 = t.row_of(segment);
                let c0 = t.col_of(segment);
                let rows = int_max(t.row_count as int, r0 + ch.row_count);
                let cols = int_max(t.col_count as int, c0 + ch.col_count);
                PghModel {
                    segs: Seq::new(
                        (rows * cols) as nat,
                        |k: int|
                            {
                                let r = k / cols;
                                let c = k % cols;
                                let base = if r < t.row_count && c < t.col_count {
                                    self.segs[r * t.col_count + c]
                                } else {
                                    SegModel::of_text(Seq::empty())
                                };
                                if r0 <= r < r0 + ch.row_count && c0 <= c < c0 + ch.col_count {
                                    base.with_text(
                                        change.segment_text((r - r0) * ch.col_count + (c - c0)),
                                    )
                                } else {
                                    base
                                }
                            },
                    ),
                    table_info: Some(
                        TableInfo { row_count: rows as usize, col_count: cols as usize, ..t },
                    ),
                    ..self
                }
            },
            _ => self,
        }
    }

    /// The segment of the cell that a merge at `segment` starts from, in
    /// the grown table.
    pub open spec fn merged_segment(self, segment: int, change: PghModel) -> int {
        match (self.table_info, change.table_info) {
            (Some(t), Some(ch)) => t.row_of(segment) * int_max(
                t.col_count as int,
                t.col_of(segment) + ch.col_count,
            ) + t.col_of(segment),
            (Some(t), None) => 0,
            (None, _) => segment,
        }
    }
}

/// In a grid of `cols` columns, the cell at `row` and `col` is held by
/// segment `row * cols + col`, and that segment's row and column are
/// `row` and `col`.
pub proof fn lemma_grid_index(row: int, col: int, cols: int)
    requires
        0 <= row,
        0 <= col < cols,
    ensures
        (row * cols + col) / cols == row,
        (row * cols + col) % cols == col,
        0 <= row * cols + col < (row + 1) * cols,
        (row + 1) * cols == row * cols + cols,
{
    lemma_div_multiples_vanish_fancy(row, col, cols);
    lemma_mul_is_commutative(row, cols);
    lemma_fundamental_div_mod(row * cols + col, cols);
    assert(0 <= row * cols) by (nonlinear_arith)
        requires
            0 <= row,
            0 < cols,
    ;
    assert((row + 1) * cols == row * cols + cols) by (nonlinear_arith);
}

/// A segment of a grid of `cols` columns and `rows` rows lies in a row
/// below `rows`.
pub proof fn lemma_grid_row_bound(seg: int, rows: int, cols: int)
    requires
        0 <= seg < rows * cols,
        0 < cols,
    ensures
        0 <= seg / cols < rows,
        0 <= seg % cols < cols,
        seg == (seg / cols) * cols + seg % cols,
{
    lemma_fundamental_div_mod(seg, cols);
    lemma_mul_is_commutative(seg / cols, cols);
    assert(seg / cols < rows) by (nonlinear_arith)
        requires
            seg == (seg / cols) * cols + seg % cols,
            0 <= seg % cols,
            seg < rows * cols,
            0 < cols,
    ;
    assert(0 <= seg / cols) by (nonlinear_arith)
        requires
            0 <= seg,
            0 < cols,
    ;
}

/// Rows below the row count start inside the grid.
pub proof fn lemma_grid_row_start(row: int, rows: int, cols: int)
    requires
        0 <= row <= rows,
        0 <= cols,
    ensures
        0 <= row * cols <= rows * cols,
        row < rows ==> row * cols + cols <= rows * cols,
{
    assert(0 <= row * cols <= rows * cols) by (nonlinear_arith)
        requires
            0 <= row <= rows,
            0 <= cols,
    ;
    assert(row < rows ==> row * cols + cols <= rows * cols) by (nonlinear_arith)
        requires
            0 <= row <= rows,
            0 <= cols,
    ;
}

impl PghView {
    /// The cell that segment `segment` holds, or `None` without a table
    /// shape.
    pub fn table_segment_to_cell(&self, segment: usize) -> (r: Option<TableCell>)
        requires
            self@.wf(),
        ensures
            match self.table_info {
                Some(t) => r == Some(
                    TableCell {
                        row: t.row_of(segment as int) as usize,
                        col: t.col_of(segment as int) as usize,
                        segment,
                    },
                ) && t.row_of(segment as int) <= segment && t.col_of(segment as int) < t.col_count,
                None => r is None,
            },
    {
        match &self.table_info {
            Some(t) => {
                proof {
                    lemma_fundamental_div_mod(segment as int, t.col_count as int);
                }
                Some(TableCell { row: segment / t.col_count, col: segment % t.col_count, segment })
            },
            None => None,
        }
    }

    /// The segment that holds a cell, 0 without a table shape.
    pub fn table_cell_to_segment(&self, cell: &TableCell) -> (r: usize)
        requires
            self.table_info matches Some(t) ==> t.seg_of(cell.row as int, cell.col as int)
                <= usize::MAX,
        ensures
            r == (match self.table_info {
                Some(t) => t.seg_of(cell.row as int, cell.col as int),
                None => 0,
            }),
    {
        match &self.table_info {
            Some(t) => {
                proof {
                    assert(0 <= cell.row * t.col_count) by (nonlinear_arith)
                        requires
                            0 <= cell.row,
                            0 <= t.col_count,
                    ;
                }
                cell.row * t.col_count + cell.col
            },
            None => 0,
        }
    }

    /// The top left and the bottom right cell of the rectangle that two
    /// segments span, or `None` without a table shape.
    pub fn table_range_to_cells(&self, s1: usize, s2: usize) -> (r: Option<(TableCell, TableCell)>)
        requires
            self@.wf(),
            self.table_info matches Some(t) ==> t.seg_of(
                t.span(s1 as int, s2 as int).row_hi,
                t.span(s1 as int, s2 as int).col_hi,
            ) <= usize::MAX,
        ensures
            match self.table_info {
                Some(t) => {
                    let sp = t.span(s1 as int, s2 as int);
                    r == Some(
                        (
                            TableCell {
                                row: sp.row_lo as usize,
                                col: sp.col_lo as usize,
                                segment: t.seg_of(sp.row_lo, sp.col_lo) as usize,
                            },
                            TableCell {
                                row: sp.row_hi as usize,
                                col: sp.col_hi as usize,
                                segment: t.seg_of(sp.row_hi, sp.col_hi) as usize,
                            },
                        ),
                    )
                },
                None => r is None,
            },
    {
        match &self.table_info {
            Some(t) => {
                let (row_min, row_max, col_min, col_max) = self.span_of(*t, s1, s2);
                proof {
                    lemma_fundamental_div_mod(s1 as int, t.col_count as int);
                    lemma_fundamental_div_mod(s2 as int, t.col_count as int);
                    lemma_mul_is_commutative(t.col_count as int, (s1 / t.col_count) as int);
                    lemma_mul_is_commutative(t.col_count as int, (s2 / t.col_count) as int);
                    assert(0 <= row_max * t.col_count) by (nonlinear_arith)
                        requires
                            0 <= row_max,
                            0 <= t.col_count,
                    ;
                }
                Some(
                    (
                        TableCell {
                            row: row_min,
                            col: col_min,
                            segment: row_min * t.col_count + col_min,
                        },
                        TableCell {
                            row: row_max,
                            col: col_max,
                            segment: row_max * t.col_count + col_max,
                        },
                    ),
                )
            },
            None => None,
        }
    }

    /// The bounds of the rectangle of cells that two segments span: first
    /// and last row, first and last column.
    pub fn span_of(&self, t: TableInfo, s1: usize, s2: usize) -> (r: (usize, usize, usize, usize))
        requires
            t.col_count > 0,
        ensures
            r.0 == t.span(s1 as int, s2 as int).row_lo,
            r.1 == t.span(s1 as int, s2 as int).row_hi,
            r.2 == t.span(s1 as int, s2 as int).col_lo,
            r.3 == t.span(s1 as int, s2 as int).col_hi,
    {
        let r1 = s1 / t.col_count;
        let r2 = s2 / t.col_count;
        let c1 = s1 % t.col_count;
        let c2 = s2 % t.col_count;
        let row_min = if r1 <= r2 {
            r1
        } else {
            r2
        };
        let row_max = if r1 >= r2 {
            r1
        } else {
            r2
        };
        let col_min = if c1 <= c2 {
            c1
        } else {
            c2
        };
        let col_max = if c1 >= c2 {
            c1
        } else {
            c2
        };
        (row_min, row_max, col_min, col_max)
    }

    /// Whether segment `segment` lies in the rectangle of cells that the
    /// segments of two cursors span.
    pub fn is_segment_in_table_select(&self, segment: usize, s1: usize, s2: usize) -> (r: bool)
        requires
            self@.wf(),
        ensures
            r == self@.in_table_select(segment as int, s1 as int, s2 as int),
    {
        match &self.table_info {
            Some(t) => {
                let (row_min, row_max, col_min, col_max) = self.span_of(*t, s1, s2);
                let row = segment / t.col_count;
                let col = segment % t.col_count;
                row >= row_min && row <= row_max && col >= col_min && col <= col_max
            },
            None => false,
        }
    }

    /// Whether a row of the table holds no text.
    pub fn table_is_empty_row(&self, row: usize) -> (r: bool)
        requires
            self@.wf(),
        ensures
            r == self@.table_row_empty(row as int),
    {
        match &self.table_info {
            Some(t) => {
                if row >= t.row_count {
                    proof {
                        assert forall|col: int| 0 <= col < t.col_count implies (
                        #[trigger] self@.segment_text(t.seg_of(row as int, col))).len() == 0 by {
                            lemma_grid_index(row as int, col, t.col_count as int);
                            lemma_grid_row_start(
                                t.row_count as int,
                                row as int,
                                t.col_count as int,
                            );
                        }
                    }
                    return true;
                }
                proof {
                    assert(t.row_count * t.col_count == self.pgh.len());
                    lemma_grid_row_start(row as int, t.row_count as int, t.col_count as int);
                }
                let base = row * t.col_count;
                let mut col: usize = 0;
                while col < t.col_count
                    invariant
                        self@.wf(),
                        self.table_info == Some(*t),
                        0 <= col <= t.col_count,
                        base == row * t.col_count,
                        base + t.col_count <= self.pgh.len(),
                        forall|c: int|
                            0 <= c < col ==> (#[trigger] self@.segment_text(
                                t.seg_of(row as int, c),
                            )).len() == 0,
                    decreases t.col_count - col,
                {
                    let s = self.get_segment_text(base + col);
                    if !s.as_str().is_empty() {
                        proof {
                            assert(t.seg_of(row as int, col as int) == base + col);
                        }
                        return false;
                    }
                    col += 1;
                }
                true
            },
            None => true,
        }
    }

    /// Whether a column of the table holds no text.
    pub fn table_is_empty_col(&self, col: usize) -> (r: bool)
        requires
            self@.wf(),
        ensures
            r == self@.table_col_empty(col as int),
    {
        match &self.table_info {
            Some(t) => {
                let len = self.pgh.len();
                let mut row: usize = 0;
                while row < t.row_count
                    invariant
                        self@.wf(),
                        self.table_info == Some(*t),
                        len == self.pgh.len(),
                        0 <= row <= t.row_count,
                        forall|r: int|
                            0 <= r < row ==> (#[trigger] self@.segment_text(
                                t.seg_of(r, col as int),
                            )).len() == 0,
                    decreases t.row_count - row,
                {
                    proof {
                        assert(t.row_count * t.col_count == self.pgh.len());
                        lemma_grid_row_start(row as int, t.row_count as int, t.col_count as int);
                    }
                    let base = row * t.col_count;
                    if col < len - base {
                        let s = self.get_segment_text(base + col);
                        if !s.as_str().is_empty() {
                            proof {
                                assert(t.seg_of(row as int, col as int) == base + col);
                            }
                            return false;
                        }
                    }
                    row += 1;
                }
                true
            },
            None => true,
        }
    }

    /// Takes a row out of the table.
    pub fn table_delete_row(&mut self, row: usize)
        requires
            old(self)@.wf(),
            old(self).table_info matches Some(t) ==> row < t.row_count,
        ensures
            final(self)@ == old(self)@.with_row_deleted(row as int),
            final(self)@.wf(),
            final(self).change_tick == old(self).change_tick,
    {
        if let Some(t) = self.table_info {
            proof {
                assert(t.row_count * t.col_count == self.pgh.len());
                lemma_grid_row_start(row as int, t.row_count as int, t.col_count as int);
                lemma_grid_row_start(row + 1, t.row_count as int, t.col_count as int);
                lemma_grid_index(row as int, 0, t.col_count as int);
            }
            let segment = row * t.col_count;
            let mut i: usize = 0;
            while i < t.col_count
                invariant
                    0 <= i <= t.col_count,
                    segment == row * t.col_count,
                    segment + t.col_count <= old(self).pgh.len(),
                    self.pgh@ =~= old(self).pgh@.take(segment as int) + old(self).pgh@.skip(
                        segment + i,
                    ),
                    self.table_info == old(self).table_info,
                    self.pgh_type == old(self).pgh_type,
                    self.code_lang == old(self).code_lang,
                    self.change_tick == old(self).change_tick,
                decreases t.col_count - i,
            {
                self.pgh.remove(segment);
                i += 1;
            }
            self.table_info = Some(
                TableInfo { row_count: t.row_count - 1, col_count: t.col_count, has_frame: t.has_frame },
            );
            proof {
                assert(final(self)@.segs =~= old(self)@.segs.take(segment as int) + old(self)@.segs.skip(segment + t.col_count));
                assert((t.row_count - 1) * t.col_count == t.row_count * t.col_count - t.col_count)
                    by (nonlinear_arith);
                assert((row + 1) * t.col_count == segment + t.col_count) by (nonlinear_arith)
                    requires
                        segment == row * t.col_count,
                ;
                assert(final(self).pgh@.len() == old(self).pgh@.len() - t.col_count);
                assert(final(self)@.segs.len() == (t.row_count - 1) * t.col_count);
            }
        }
    }

    /// Puts a row of empty cells in as row `row`, and gives the number of
    /// segments put in.
    pub fn table_insert_row(&mut self, row: usize) -> (n: usize)
        requires
            old(self)@.wf(),
            old(self).table_info matches Some(t) ==> row <= t.row_count,
        ensures
            final(self)@ == old(self)@.with_row_inserted(row as int),
            final(self)@.wf(),
            final(self).change_tick == old(self).change_tick,
            n == (match old(self).table_info {
                Some(t) => t.col_count,
                None => 0,
            }),
    {
        if let Some(t) = self.table_info {
            proof {
                assert(t.row_count * t.col_count == self.pgh.len());
                lemma_grid_row_start(row as int, t.row_count as int, t.col_count as int);
            }
            let segment = row * t.col_count;
            let mut i: usize = 0;
            while i < t.col_count
                invariant
                    0 <= i <= t.col_count,
                    segment == row * t.col_count,
                    segment <= old(self).pgh.len(),
                    self.pgh.len() == old(self).pgh.len() + i,
                    self@.segs =~= old(self)@.segs.take(segment as int) + empty_cells(i as int)
                        + old(self)@.segs.skip(segment as int),
                    same_frame(*self, *old(self)),
                decreases t.col_count - i,
            {
                self.insert_text(segment, String::new());
                i += 1;
            }
            proof {
                assert((t.row_count + 1) * t.col_count == t.row_count * t.col_count + t.col_count)
                    by (nonlinear_arith);
                assert(t.row_count + 1 <= self.pgh.len()) by (nonlinear_arith)
                    requires
                        self.pgh.len() == t.row_count * t.col_count + t.col_count,
                        t.col_count >= 1,
                        t.row_count >= 0,
                ;
            }
            self.table_info = Some(
                TableInfo { row_count: t.row_count + 1, col_count: t.col_count, has_frame: t.has_frame },
            );
            t.col_count
        } else {
            0
        }
    }

    /// Puts a column of empty cells in as column `col`, and gives the
    /// number of segments put in.
    #[verifier::rlimit(50)]
    pub fn table_insert_col(&mut self, col: usize) -> (n: usize)
        requires
            old(self)@.wf(),
            old(self).table_info matches Some(t) ==> col <= t.col_count && t.col_count
                < usize::MAX,
        ensures
            final(self)@ == old(self)@.with_col_inserted(col as int),
            final(self)@.wf(),
            final(self).change_tick == old(self).change_tick,
            n == (match old(self).table_info {
                Some(t) => t.row_count,
                None => 0,
            }),
    {
        if let Some(t) = self.table_info {
            let ghost goal = old(self)@.with_col_inserted(col as int);
            let width = t.col_count + 1;
            let mut out: Vec<PghSegment> = Vec::new();
            let mut r: usize = 0;
            proof {
                assert(t.row_count * t.col_count == self.pgh.len());
            }
            while r < t.row_count
                invariant
                    *self == *old(self),
                    self.table_info == Some(t),
                    self@.wf(),
                    col <= t.col_count,
                    width == t.col_count + 1,
                    goal == old(self)@.with_col_inserted(col as int),
                    0 <= r <= t.row_count,
                    out.len() == r * width,
                    forall|k: int| 0 <= k < out.len() ==> (#[trigger] out@[k])@ == goal.segs[k],
                decreases t.row_count - r,
            {
                proof {
                    lemma_grid_row_start(r as int, t.row_count as int, t.col_count as int);
                    assert(t.row_count * t.col_count == self.pgh.len());
                }
                let base = r * t.col_count;
                let mut c: usize = 0;
                while c < width
                    invariant
                        *self == *old(self),
                        self.table_info == Some(t),
                        self@.wf(),
                        col <= t.col_count,
                        width == t.col_count + 1,
                        goal == old(self)@.with_col_inserted(col as int),
                        0 <= r < t.row_count,
                        0 <= c <= width,
                        base == r * t.col_count,
                        base + t.col_count <= self.pgh.len(),
                        out.len() == r * width + c,
                        forall|k: int| 0 <= k < out.len() ==> (#[trigger] out@[k])@ == goal.segs[k],
                    decreases width - c,
                {
                    proof {
                        lemma_grid_index(r as int, c as int, width as int);
                        lemma_grid_row_start(r as int + 1, t.row_count as int, width as int);
                        assert(r * width + c < t.row_count * (t.col_count + 1));
                    }
                    let seg = if c < col {
                        self.pgh[base + c].clone()
                    } else if c == col {
                        PghSegment::new_text(String::new())
                    } else {
                        self.pgh[base + c - 1].clone()
                    };
                    proof {
                        let k = out.len() as int;
                        assert(seg@ == goal.segs[k]);
                    }
                    out.push(seg);
                    c += 1;
                }
                proof {
                    assert((r + 1) * width == r * width + width) by (nonlinear_arith);
                }
                r += 1;
            }
            self.pgh = out;
            self.table_info = Some(
                TableInfo { row_count: t.row_count, col_count: width, has_frame: t.has_frame },
            );
            proof {
                assert(final(self)@.segs =~= goal.segs);
            }
            t.row_count
        } else {
            0
        }
    }

    /// Takes a column out of the table.
    #[verifier::rlimit(50)]
    pub fn table_delete_col(&mut self, col: usize)
        requires
            old(self)@.wf(),
            old(self).table_info matches Some(t) ==> col < t.col_count,
        ensures
            final(self)@ == old(self)@.with_col_deleted(col as int),
            old(self).table_info matches Some(t) ==> (t.col_count >= 2 ==> final(self)@.wf()),
            old(self).table_info is None ==> final(self)@.wf(),
            final(self).change_tick == old(self).change_tick,
    {
        if let Some(t) = self.table_info {
            let ghost goal = old(self)@.with_col_deleted(col as int);
            let width = t.col_count - 1;
            let mut out: Vec<PghSegment> = Vec::new();
            let mut r: usize = 0;
            proof {
                assert(t.row_count * t.col_count == self.pgh.len());
            }
            while r < t.row_count
                invariant
                    *self == *old(self),
                    self.table_info == Some(t),
                    self@.wf(),
                    col < t.col_count,
                    width == t.col_count - 1,
                    goal == old(self)@.with_col_deleted(col as int),
                    0 <= r <= t.row_count,
                    out.len() == r * width,
                    forall|k: int| 0 <= k < out.len() ==> (#[trigger] out@[k])@ == goal.segs[k],
                decreases t.row_count - r,
            {
                proof {
                    lemma_grid_row_start(r as int, t.row_count as int, t.col_count as int);
                    assert(t.row_count * t.col_count == self.pgh.len());
                }
                let base = r * t.col_count;
                let mut c: usize = 0;
                while c < width
                    invariant
                        *self == *old(self),
                        self.table_info == Some(t),
                        self@.wf(),
                        col < t.col_count,
                        width == t.col_count - 1,
                        goal == old(self)@.with_col_deleted(col as int),
                        0 <= r < t.row_count,
                        0 <= c <= width,
                        base == r * t.col_count,
                        base + t.col_count <= self.pgh.len(),
                        out.len() == r * width + c,
                        forall|k: int| 0 <= k < out.len() ==> (#[trigger] out@[k])@ == goal.segs[k],
                    decreases width - c,
                {
                    proof {
                        lemma_grid_index(r as int, c as int, width as int);
                        lemma_grid_row_start(r as int + 1, t.row_count as int, width as int);
                        assert(r * width + c < t.row_count * (t.col_count - 1));
                    }
                    let seg = if c < col {
                        self.pgh[base + c].clone()
                    } else {
                        self.pgh[base + c + 1].clone()
                    };
                    proof {
                        let k = out.len() as int;
                        assert(seg@ == goal.segs[k]);
                    }
                    out.push(seg);
                    c += 1;
                }
                proof {
                    assert((r + 1) * width == r * width + width) by (nonlinear_arith);
                }
                r += 1;
            }
            self.pgh = out;
            self.table_info = Some(
                TableInfo { row_count: t.row_count, col_count: width, has_frame: t.has_frame },
            );
            proof {
                assert(final(self)@.segs =~= goal.segs);
            }
        }
    }

    /// For each row from `lo` to `hi`, whether it is empty.
    fn empty_rows_between(&self, lo: usize, hi: usize) -> (flags: Vec<bool>)
        requires
            self@.wf(),
            lo <= hi,
        ensures
            flags.len() == hi - lo + 1,
            forall|k: int| 0 <= k < flags.len() ==> flags[k] == self@.table_row_empty(lo + k),
    {
        let mut flags: Vec<bool> = Vec::new();
        let mut row = lo;
        loop
            invariant_except_break
                flags.len() == row - lo,
            invariant
                self@.wf(),
                lo <= row <= hi,
                forall|k: int| 0 <= k < flags.len() ==> flags[k] == self@.table_row_empty(lo + k),
            ensures
                flags.len() == hi - lo + 1,
                forall|k: int| 0 <= k < flags.len() ==> flags[k] == self@.table_row_empty(lo + k),
            decreases hi - row,
        {
            let b = self.table_is_empty_row(row);
            flags.push(b);
            if row == hi {
                break ;
            }
            row += 1;
        }
        flags
    }

    /// For each column from `lo` to `hi`, whether it is empty.
    fn empty_cols_between(&self, lo: usize, hi: usize) -> (flags: Vec<bool>)
        requires
            self@.wf(),
            lo <= hi,
        ensures
            flags.len() == hi - lo + 1,
            forall|k: int| 0 <= k < flags.len() ==> flags[k] == self@.table_col_empty(lo + k),
    {
        let mut flags: Vec<bool> = Vec::new();
        let mut col = lo;
        loop
            invariant_except_break
                flags.len() == col - lo,
            invariant
                self@.wf(),
                lo <= col <= hi,
                forall|k: int| 0 <= k < flags.len() ==> flags[k] == self@.table_col_empty(lo + k),
            ensures
                flags.len() == hi - lo + 1,
                forall|k: int| 0 <= k < flags.len() ==> flags[k] == self@.table_col_empty(lo + k),
            decreases hi - col,
        {
            let b = self.table_is_empty_col(col);
            flags.push(b);
            if col == hi {
                break ;
            }
            col += 1;
        }
        flags
    }

    /// Takes out the empty rows and columns of the rectangle that two
    /// segments span, leaving at least one row and one column.
    #[verifier::rlimit(50)]
    pub fn table_delete_empty_in_range(&mut self, s1: usize, s2: usize)
        requires
            old(self)@.wf(),
        ensures
            final(self)@ == old(self)@.with_empty_dropped(s1 as int, s2 as int),
            final(self)@.wf(),
            final(self).change_tick == old(self).change_tick,
    {
        if let Some(t) = self.table_info {
            let ghost origin = self@;
            let (row_lo, row_hi, col_lo, col_hi) = self.span_of(t, s1, s2);
            proof {
                lemma_fundamental_div_mod(s1 as int, t.col_count as int);
                lemma_fundamental_div_mod(s2 as int, t.col_count as int);
            }
            let full_width = col_lo == 0 && col_hi == t.col_count - 1;
            let full_height = row_lo == 0 && t.row_count > 0 && row_hi == t.row_count - 1;
            let last_row = if t.row_count > 0 && row_hi > t.row_count - 1 {
                t.row_count - 1
            } else {
                row_hi
            };
            let rows_in_reach = full_width && t.row_count > 0 && row_lo <= last_row;
            let row_flags = if rows_in_reach {
                self.empty_rows_between(row_lo, last_row)
            } else {
                Vec::new()
            };
            let col_flags = if full_height {
                self.empty_cols_between(col_lo, col_hi)
            } else {
                Vec::new()
            };
            if rows_in_reach {
                let mut row = last_row;
                loop
                    invariant_except_break
                        row < self@.row_count(),
                        self@.rows_dropped(origin, row_lo as int, row as int)
                            == origin.rows_dropped(origin, row_lo as int, last_row as int),
                    invariant
                        origin.wf(),
                        origin.table_info == Some(t),
                        self@.wf(),
                        self.table_info is Some,
                        self@.col_count() == t.col_count,
                        self.change_tick == old(self).change_tick,
                        row_lo <= row <= last_row,
                        row_flags.len() == last_row - row_lo + 1,
                        forall|k: int|
                            0 <= k < row_flags.len() ==> row_flags[k] == origin.table_row_empty(
                                row_lo + k,
                            ),
                    ensures
                        self@.wf(),
                        self.table_info is Some,
                        self@.col_count() == t.col_count,
                        self.change_tick == old(self).change_tick,
                        self@ == origin.rows_dropped(origin, row_lo as int, last_row as int),
                    decreases row - row_lo,
                {
                    let count = match &self.table_info {
                        Some(cur) => cur.row_count,
                        None => 0,
                    };
                    if row_flags[row - row_lo] && count > 1 {
                        self.table_delete_row(row);
                    }
                    if row == row_lo {
                        proof {
                            assert(self@.rows_dropped(origin, row_lo as int, row_lo - 1) == self@);
                        }
                        break ;
                    }
                    row -= 1;
                }
            } else {
                proof {
                    if full_width {
                        assert(int_min(row_hi as int, t.row_count - 1) < row_lo);
                    }
                }
            }
            let ghost rows_done = self@;
            if full_height {
                let mut col = col_hi;
                loop
                    invariant_except_break
                        col < self@.col_count(),
                        self@.cols_dropped(origin, col_lo as int, col as int)
                            == rows_done.cols_dropped(origin, col_lo as int, col_hi as int),
                    invariant
                        origin.wf(),
                        origin.table_info == Some(t),
                        self@.wf(),
                        self.table_info is Some,
                        self.change_tick == old(self).change_tick,
                        col_lo <= col <= col_hi,
                        col_flags.len() == col_hi - col_lo + 1,
                        forall|k: int|
                            0 <= k < col_flags.len() ==> col_flags[k] == origin.table_col_empty(
                                col_lo + k,
                            ),
                    ensures
                        self@.wf(),
                        self.change_tick == old(self).change_tick,
                        self@ == rows_done.cols_dropped(origin, col_lo as int, col_hi as int),
                    decreases col - col_lo,
                {
                    let count = match &self.table_info {
                        Some(cur) => cur.col_count,
                        None => 0,
                    };
                    if col_flags[col - col_lo] && count > 1 {
                        self.table_delete_col(col);
                    }
                    if col == col_lo {
                        proof {
                            assert(self@.cols_dropped(origin, col_lo as int, col_lo - 1) == self@);
                        }
                        break ;
                    }
                    col -= 1;
                }
            }
        }
    }

    /// Writes the cells of table `change` over the cells of this table from
    /// the cell of segment `segment` on, growing the table where `change`
    /// reaches past it, and gives the segment of that cell in the grown
    /// table. The segment may lie below the table: its row and column are
    /// counted as if the table went on. The rows and columns reached must
    /// be countable and, where the cell still lies below the grown table,
    /// its segment too.
    #[verifier::rlimit(50)]
    pub fn table_merge(&mut self, segment: usize, change: &PghView) -> (new_seg: usize)
        requires
            old(self)@.wf(),
            change@.wf(),
            old(self).table_info matches Some(t) ==> (change.table_info matches Some(ch) ==> {
                &&& t.row_of(segment as int) + ch.row_count <= usize::MAX
                &&& t.col_of(segment as int) + ch.col_count <= usize::MAX
                &&& (ch.row_count == 0 && t.row_of(segment as int) >= t.row_count) ==> old(
                    self,
                )@.merged_segment(segment as int, change@) <= usize::MAX
            }),
        ensures
            final(self)@ == old(self)@.merged(segment as int, change@),
            new_seg == old(self)@.merged_segment(segment as int, change@),
            final(self)@.wf(),
            final(self).change_tick == old(self).change_tick,
    {
        let t = match self.table_info {
            Some(t) => t,
            None => {
                return segment;
            },
        };
        let ch = match change.table_info {
            Some(ch) => ch,
            None => {
                return 0;
            },
        };
        let ghost goal = old(self)@.merged(segment as int, change@);
        proof {
            assert(t.row_count * t.col_count == self.pgh.len());
            assert(ch.row_count * ch.col_count == change.pgh.len());
            lemma_fundamental_div_mod(segment as int, t.col_count as int);
        }
        let r0 = segment / t.col_count;
        let c0 = segment % t.col_count;
        let rows = if t.row_count >= r0 + ch.row_count {
            t.row_count
        } else {
            r0 + ch.row_count
        };
        let cols = if t.col_count >= c0 + ch.col_count {
            t.col_count
        } else {
            c0 + ch.col_count
        };
        let mut out: Vec<PghSegment> = Vec::new();
        let mut r: usize = 0;
        while r < rows
            invariant
                *self == *old(self),
                self.table_info == Some(t),
                change.table_info == Some(ch),
                self@.wf(),
                change@.wf(),
                goal == old(self)@.merged(segment as int, change@),
                r0 == t.row_of(segment as int),
                c0 == t.col_of(segment as int),
                rows == int_max(t.row_count as int, r0 + ch.row_count),
                cols == int_max(t.col_count as int, c0 + ch.col_count),
                cols >= 1,
                0 <= r <= rows,
                out.len() == r * cols,
                forall|k: int| 0 <= k < out.len() ==> (#[trigger] out@[k])@ == goal.segs[k],
            decreases rows - r,
        {
            let mut c: usize = 0;
            while c < cols
                invariant
                    *self == *old(self),
                    self.table_info == Some(t),
                    change.table_info == Some(ch),
                    self@.wf(),
                    change@.wf(),
                    goal == old(self)@.merged(segment as int, change@),
                    r0 == t.row_of(segment as int),
                    c0 == t.col_of(segment as int),
                    rows == int_max(t.row_count as int, r0 + ch.row_count),
                    cols == int_max(t.col_count as int, c0 + ch.col_count),
                    cols >= 1,
                    0 <= r < rows,
                    0 <= c <= cols,
                    out.len() == r * cols + c,
                    forall|k: int| 0 <= k < out.len() ==> (#[trigger] out@[k])@ == goal.segs[k],
                decreases cols - c,
            {
                proof {
                    lemma_grid_index(r as int, c as int, cols as int);
                    lemma_grid_row_start(r as int + 1, rows as int, cols as int);
                    assert(t.row_count * t.col_count == self.pgh.len());
                    assert(ch.row_count * ch.col_count == change.pgh.len());
                    if r < t.row_count {
                        lemma_grid_row_start(r as int + 1, t.row_count as int, t.col_count as int);
                        lemma_grid_index(r as int, 0, t.col_count as int);
                    }
                    if r0 <= r < r0 + ch.row_count {
                        lemma_grid_row_start(r - r0 + 1, ch.row_count as int, ch.col_count as int);
                        if ch.col_count > 0 {
                            lemma_grid_index(r - r0, 0, ch.col_count as int);
                        }
                    }
                }
                let mut seg = if r < t.row_count && c < t.col_count {
                    self.pgh[r * t.col_count + c].clone()
                } else {
                    PghSegment::new_text(String::new())
                };
                if r >= r0 && r - r0 < ch.row_count && c >= c0 && c - c0 < ch.col_count {
                    let text = change.get_segment_text((r - r0) * ch.col_count + (c - c0));
                    seg.item.update_text(text);
                }
                proof {
                    let k = out.len() as int;
                    assert(seg@ == goal.segs[k]);
                }
                out.push(seg);
                c += 1;
            }
            proof {
                assert((r + 1) * cols == r * cols + cols) by (nonlinear_arith);
            }
            r += 1;
        }
        self.pgh = out;
        self.table_info = Some(TableInfo { row_count: rows, col_count: cols, has_frame: t.has_frame });
        proof {
            assert(final(self)@.segs =~= goal.segs);
            lemma_grid_row_start(r0 as int, rows as int, cols as int);
            if r0 < rows {
                lemma_grid_row_start(r0 as int + 1, rows as int, cols as int);
            }
        }
        r0 * cols + c0
    }

    /// Whether the paragraph is well formed.
    pub fn is_wf(&self) -> (r: bool)
        ensures
            r == self@.wf(),
    {
        match self.table_info {
            Some(t) => {
                if self.pgh_type != crate::pgh::PghType::Table || t.col_count == 0 {
                    return false;
                }
                let len = self.pgh.len();
                proof {
                    lemma_fundamental_div_mod(len as int, t.col_count as int);
                    lemma_mul_is_commutative(t.col_count as int, (len / t.col_count) as int);
                    if t.row_count * t.col_count == len {
                        lemma_grid_index(t.row_count as int, 0, t.col_count as int);
                    }
                }
                len % t.col_count == 0 && len / t.col_count == t.row_count
            },
            None => true,
        }
    }
}

} // verus!
