//! The mathematical model of a dense matrix: its two extents and its cells,
//! row by row. Every contract of the matrix store is stated over this model.

use core::ops::{Add, Div, Mul, Sub};
use vstd::prelude::*;
use vstd::std_specs::ops::{AddSpec, DivSpec, MulSpec, SubSpec};

verus! {

/// A `rows` by `columns` table of cells. `cells[r][c]` is the cell in row `r`
/// and column `c`.
#[verifier::ext_equal]
pub struct Grid<T> {
    pub rows: nat,
    pub columns: nat,
    pub cells: Seq<Seq<T>>,
}

/// Every swap of `log` names two rows of a table of `rows` rows.
pub open spec fn log_fits(log: Seq<(usize, usize)>, rows: nat) -> bool {
    forall|k: int| 0 <= k < log.len() ==> (#[trigger] log[k]).0 < rows && log[k].1 < rows
}

/// The row of a table before the swaps of `log` that stands at place `row`
/// after them.
pub open spec fn row_source(log: Seq<(usize, usize)>, row: int) -> int
    decreases log.len(),
{
    if log.len() == 0 {
        row
    } else {
        let (first, second) = log.last();
        row_source(
            log.drop_last(),
            if row == second {
                first as int
            } else if row == first {
                second as int
            } else {
                row
            },
        )
    }
}

/// A log without its last swap still names rows of the table only.
pub proof fn lemma_log_fits_drop_last(log: Seq<(usize, usize)>, rows: nat)
    requires
        log_fits(log, rows),
        log.len() > 0,
    ensures
        log_fits(log.drop_last(), rows),
        log.last().0 < rows,
        log.last().1 < rows,
{
    assert forall|k: int| 0 <= k < log.drop_last().len() implies (#[trigger] log.drop_last()[k]).0
        < rows && log.drop_last()[k].1 < rows by {
        assert(log.drop_last()[k] == log[k]);
    }
    assert(log[log.len() - 1].0 < rows);
}

impl<T> Grid<T> {
    /// The table holds exactly `rows` rows of exactly `columns` cells each.
    pub open spec fn wf(self) -> bool {
        &&& self.cells.len() == self.rows
        &&& forall|r: int| 0 <= r < self.rows ==> (#[trigger] self.cells[r]).len() == self.columns
    }

    /// Whether `(row, column)` addresses a cell of the table.
    pub open spec fn has(self, row: int, column: int) -> bool {
        0 <= row < self.rows && 0 <= column < self.columns
    }

    /// The cell in row `row` and column `column`.
    pub open spec fn at(self, row: int, column: int) -> T {
        self.cells[row][column]
    }

    /// Two tables have the same extents.
    pub open spec fn same_shape<U>(self, other: Grid<U>) -> bool {
        self.rows == other.rows && self.columns == other.columns
    }

    /// The table whose cell `(r, c)` is `cell(r, c)`.
    pub open spec fn build(rows: nat, columns: nat, cell: spec_fn(int, int) -> T) -> Grid<T> {
        Grid {
            rows,
            columns,
            cells: Seq::new(rows, |r: int| Seq::new(columns, |c: int| cell(r, c))),
        }
    }

    /// The table that a row-major buffer stands for: cell `(r, c)` is found at
    /// offset `r * columns + c`.
    pub open spec fn from_flat(rows: nat, columns: nat, flat: Seq<T>) -> Grid<T> {
        Self::build(rows, columns, |r: int, c: int| flat[r * columns + c])
    }

    /// The table with every cell equal to `value`.
    pub open spec fn filled(rows: nat, columns: nat, value: T) -> Grid<T> {
        Self::build(rows, columns, |r: int, c: int| value)
    }

    /// The same table with cell `(row, column)` replaced by `value`.
    pub open spec fn update(self, row: int, column: int, value: T) -> Grid<T> {
        Grid {
            rows: self.rows,
            columns: self.columns,
            cells: self.cells.update(row, self.cells[row].update(column, value)),
        }
    }

    /// The transposed table: cell `(r, c)` of the result is cell `(c, r)` of `self`.
    pub open spec fn transpose(self) -> Grid<T> {
        Self::build(self.columns, self.rows, |r: int, c: int| self.at(c, r))
    }

    /// Rows `start..end` of the table, in their order, with all their columns.
    pub open spec fn slice_rows(self, start: int, end: int) -> Grid<T> {
        Grid {
            rows: (end - start) as nat,
            columns: self.columns,
            cells: self.cells.subrange(start, end),
        }
    }

    /// The `rows` by `columns` block of the table whose first cell is `(top, left)`.
    pub open spec fn block(self, top: int, left: int, rows: nat, columns: nat) -> Grid<T> {
        Self::build(rows, columns, |r: int, c: int| self.at(top + r, left + c))
    }

    /// The table made of four blocks: `c11` above `c21` on the left, `c12`
    /// above `c22` on the right.
    pub open spec fn assemble(c11: Grid<T>, c12: Grid<T>, c21: Grid<T>, c22: Grid<T>) -> Grid<T> {
        Self::build(
            c11.rows + c21.rows,
            c11.columns + c12.columns,
            |r: int, c: int|
                if r < c11.rows {
                    if c < c11.columns {
                        c11.at(r, c)
                    } else {
                        c12.at(r, c - c11.columns)
                    }
                } else {
                    if c < c11.columns {
                        c21.at(r - c11.rows, c)
                    } else {
                        c22.at(r - c11.rows, c - c11.columns)
                    }
                },
        )
    }

    /// The same table with rows `row` and `other` exchanged.
    pub open spec fn swap_rows(self, row: int, other: int) -> Grid<T> {
        Grid {
            rows: self.rows,
            columns: self.columns,
            cells: self.cells.update(row, self.cells[other]).update(other, self.cells[row]),
        }
    }

    /// The table after the swaps of `log` have been applied in order.
    pub open spec fn replay(self, log: Seq<(usize, usize)>) -> Grid<T>
        decreases log.len(),
    {
        if log.len() == 0 {
            self
        } else {
            self.replay(log.drop_last()).swap_rows(log.last().0 as int, log.last().1 as int)
        }
    }

    /// `out` is a value that a left fold over the first `upto` cells of row
    /// `row` may yield from `init`, where `step(acc, cell, r, c, next)` says that
    /// the fold may go from `acc` to `next` at cell `(r, c)`.
    pub open spec fn row_folds_to<B>(
        self,
        step: spec_fn(B, T, int, int, B) -> bool,
        row: int,
        upto: int,
        init: B,
        out: B,
    ) -> bool
        decreases upto,
    {
        if upto <= 0 {
            out == init
        } else {
            exists|mid: B|
                self.row_folds_to(step, row, upto - 1, init, mid) && #[trigger] step(
                    mid,
                    self.at(row, upto - 1),
                    row,
                    upto - 1,
                    out,
                )
        }
    }

    /// `out` is a value that a left fold down the first `upto` cells of column
    /// `column` may yield from `init`.
    pub open spec fn column_folds_to<B>(
        self,
        step: spec_fn(B, T, int, int, B) -> bool,
        column: int,
        upto: int,
        init: B,
        out: B,
    ) -> bool
        decreases upto,
    {
        if upto <= 0 {
            out == init
        } else {
            exists|mid: B|
                self.column_folds_to(step, column, upto - 1, init, mid) && #[trigger] step(
                    mid,
                    self.at(upto - 1, column),
                    upto - 1,
                    column,
                    out,
                )
        }
    }

    /// `out` is a value that a left fold over all cells of the first `upto`
    /// rows, in row-major order, may yield from `init`.
    pub open spec fn folds_to<B>(
        self,
        step: spec_fn(B, T, int, int, B) -> bool,
        upto: int,
        init: B,
        out: B,
    ) -> bool
        decreases upto,
    {
        if upto <= 0 {
            out == init
        } else {
            exists|mid: B|
                self.folds_to(step, upto - 1, init, mid) && #[trigger] self.row_folds_to(
                    step,
                    upto - 1,
                    self.columns as int,
                    mid,
                    out,
                )
        }
    }

    /// A fold along a row under `step` is a fold under any weaker `wider`.
    pub proof fn lemma_row_fold_widens<B>(
        self,
        step: spec_fn(B, T, int, int, B) -> bool,
        wider: spec_fn(B, T, int, int, B) -> bool,
        row: int,
        upto: int,
        init: B,
        out: B,
    )
        requires
            forall|acc: B, cell: T, r: int, c: int, next: B|
                #[trigger] step(acc, cell, r, c, next) ==> wider(acc, cell, r, c, next),
            self.row_folds_to(step, row, upto, init, out),
        ensures
            self.row_folds_to(wider, row, upto, init, out),
        decreases upto,
    {
        if upto > 0 {
            let mid = choose|mid: B|
                self.row_folds_to(step, row, upto - 1, init, mid) && #[trigger] step(
                    mid,
                    self.at(row, upto - 1),
                    row,
                    upto - 1,
                    out,
                );
            self.lemma_row_fold_widens(step, wider, row, upto - 1, init, mid);
        }
    }

    /// A fold down a column under `step` is a fold under any weaker `wider`.
    pub proof fn lemma_column_fold_widens<B>(
        self,
        step: spec_fn(B, T, int, int, B) -> bool,
        wider: spec_fn(B, T, int, int, B) -> bool,
        column: int,
        upto: int,
        init: B,
        out: B,
    )
        requires
            forall|acc: B, cell: T, r: int, c: int, next: B|
                #[trigger] step(acc, cell, r, c, next) ==> wider(acc, cell, r, c, next),
            self.column_folds_to(step, column, upto, init, out),
        ensures
            self.column_folds_to(wider, column, upto, init, out),
        decreases upto,
    {
        if upto > 0 {
            let mid = choose|mid: B|
                self.column_folds_to(step, column, upto - 1, init, mid) && #[trigger] step(
                    mid,
                    self.at(upto - 1, column),
                    upto - 1,
                    column,
                    out,
                );
            self.lemma_column_fold_widens(step, wider, column, upto - 1, init, mid);
        }
    }

    /// A fold over whole rows under `step` is a fold under any weaker `wider`.
    pub proof fn lemma_fold_widens<B>(
        self,
        step: spec_fn(B, T, int, int, B) -> bool,
        wider: spec_fn(B, T, int, int, B) -> bool,
        upto: int,
        init: B,
        out: B,
    )
        requires
            forall|acc: B, cell: T, r: int, c: int, next: B|
                #[trigger] step(acc, cell, r, c, next) ==> wider(acc, cell, r, c, next),
            self.folds_to(step, upto, init, out),
        ensures
            self.folds_to(wider, upto, init, out),
        decreases upto,
    {
        if upto > 0 {
            let mid = choose|mid: B|
                self.folds_to(step, upto - 1, init, mid) && #[trigger] self.row_folds_to(
                    step,
                    upto - 1,
                    self.columns as int,
                    mid,
                    out,
                );
            self.lemma_fold_widens(step, wider, upto - 1, init, mid);
            self.lemma_row_fold_widens(step, wider, upto - 1, self.columns as int, mid, out);
        }
    }

    /// Transposing twice gives the table back.
    pub proof fn lemma_transpose_involutive(self)
        requires
            self.wf(),
        ensures
            self.transpose().transpose() == self,
    {
        let twice = self.transpose().transpose();
        assert forall|r: int, c: int| twice.has(r, c) implies twice.at(r, c) == self.at(r, c) by {
            assert(self.transpose().has(c, r));
        }
        twice.lemma_equal_by_cells(self);
    }

    /// A slice of rows is the table of those rows, in their order, with the
    /// column count of the whole: its cell `(r, c)` is cell `(start + r, c)`.
    pub proof fn lemma_slice_rows_cells(self, start: int, end: int)
        requires
            self.wf(),
            0 <= start <= end <= self.rows,
        ensures
            self.slice_rows(start, end).wf(),
            self.slice_rows(start, end).rows == end - start,
            self.slice_rows(start, end).columns == self.columns,
            forall|r: int|
                0 <= r < end - start ==> #[trigger] self.slice_rows(start, end).cells[r]
                    == self.cells[start + r],
            forall|r: int, c: int|
                0 <= r < end - start && 0 <= c < self.columns ==> #[trigger] self.slice_rows(
                    start,
                    end,
                ).at(r, c) == self.at(start + r, c),
    {
    }

    /// Swaps of rows keep the shape of a table.
    pub proof fn lemma_replay_shape(self, log: Seq<(usize, usize)>)
        requires
            self.wf(),
            log_fits(log, self.rows),
        ensures
            self.replay(log).wf(),
            self.replay(log).same_shape(self),
        decreases log.len(),
    {
        if log.len() > 0 {
            lemma_log_fits_drop_last(log, self.rows);
            self.lemma_replay_shape(log.drop_last());
        }
    }

    /// Replaying one log of swaps on two tables of as many rows keeps their
    /// rows together: the rows that end at any one place come from one place.
    pub proof fn lemma_replay_keeps_rows_together<U>(
        self,
        other: Grid<U>,
        log: Seq<(usize, usize)>,
        row: int,
    )
        requires
            self.wf(),
            other.wf(),
            self.rows == other.rows,
            log_fits(log, self.rows),
            0 <= row < self.rows,
        ensures
            0 <= row_source(log, row) < self.rows,
            self.replay(log).cells[row] == self.cells[row_source(log, row)],
            other.replay(log).cells[row] == other.cells[row_source(log, row)],
        decreases log.len(),
    {
        if log.len() > 0 {
            let rest = log.drop_last();
            let (first, second) = log.last();
            lemma_log_fits_drop_last(log, self.rows);
            let before = if row == second {
                first as int
            } else if row == first {
                second as int
            } else {
                row
            };
            self.lemma_replay_shape(rest);
            other.lemma_replay_shape(rest);
            self.lemma_replay_keeps_rows_together(other, rest, before);
        }
    }

    /// Two well-formed tables of the same shape that agree on every cell are equal.
    pub proof fn lemma_equal_by_cells(self, other: Grid<T>)
        requires
            self.wf(),
            other.wf(),
            self.same_shape(other),
            forall|r: int, c: int| self.has(r, c) ==> self.at(r, c) == other.at(r, c),
        ensures
            self == other,
    {
        assert forall|r: int| 0 <= r < self.rows implies self.cells[r] =~= other.cells[r] by {
            assert forall|c: int| 0 <= c < self.columns implies self.cells[r][c]
                == other.cells[r][c] by {
                assert(self.has(r, c));
            }
        }
        assert(self.cells =~= other.cells);
    }
}

impl<T: Add<Output = T>> Grid<T> {
    /// Every cell of `self` may be added to the cell of `other` at its place.
    pub open spec fn sum_defined(self, other: Grid<T>) -> bool {
        forall|r: int, c: int| self.has(r, c) ==> #[trigger] self.at(r, c).add_req(other.at(r, c))
    }

    /// The cell-wise sum.
    pub open spec fn sum(self, other: Grid<T>) -> Grid<T> {
        Self::build(
            self.rows,
            self.columns,
            |r: int, c: int| self.at(r, c).add_spec(other.at(r, c)),
        )
    }
}

impl<T: Sub<Output = T>> Grid<T> {
    /// The cell of `other` may be subtracted from every cell of `self` at its place.
    pub open spec fn difference_defined(self, other: Grid<T>) -> bool {
        forall|r: int, c: int| self.has(r, c) ==> #[trigger] self.at(r, c).sub_req(other.at(r, c))
    }

    /// The cell-wise difference.
    pub open spec fn difference(self, other: Grid<T>) -> Grid<T> {
        Self::build(
            self.rows,
            self.columns,
            |r: int, c: int| self.at(r, c).sub_spec(other.at(r, c)),
        )
    }
}

impl<T: Mul<Output = T>> Grid<T> {
    /// Every cell of `self` may be multiplied by the cell of `other` at its place.
    pub open spec fn cellwise_product_defined(self, other: Grid<T>) -> bool {
        forall|r: int, c: int| self.has(r, c) ==> #[trigger] self.at(r, c).mul_req(other.at(r, c))
    }

    /// The cell-wise product.
    pub open spec fn cellwise_product(self, other: Grid<T>) -> Grid<T> {
        Self::build(
            self.rows,
            self.columns,
            |r: int, c: int| self.at(r, c).mul_spec(other.at(r, c)),
        )
    }
}

impl<T: Div<Output = T>> Grid<T> {
    /// Every cell of `self` may be divided by the cell of `other` at its place.
    pub open spec fn quotient_defined(self, other: Grid<T>) -> bool {
        forall|r: int, c: int| self.has(r, c) ==> #[trigger] self.at(r, c).div_req(other.at(r, c))
    }

    /// The cell-wise quotient.
    pub open spec fn quotient(self, other: Grid<T>) -> Grid<T> {
        Self::build(
            self.rows,
            self.columns,
            |r: int, c: int| self.at(r, c).div_spec(other.at(r, c)),
        )
    }
}

} // verus!
