//! The matrix store: a flat, row-major buffer with its two extents, and the
//! operations on it.

use crate::linalg::grid::Grid;
use vstd::pervasive::runtime_assert;
use vstd::prelude::*;

verus! {

/// `value` is a value that `T::default()` may return.
pub open spec fn is_default<T: Default>(value: T) -> bool {
    call_ensures(T::default, (), value)
}

/// A cell address inside a `rows` by `columns` table has its row-major offset
/// inside the buffer.
pub proof fn lemma_offset_in_range(rows: int, columns: int, row: int, column: int)
    requires
        0 <= row < rows,
        0 <= column < columns,
    ensures
        0 <= row * columns,
        0 <= row * columns + column < rows * columns,
        row * columns + columns <= rows * columns,
{
    assert(0 <= row * columns) by (nonlinear_arith)
        requires
            0 <= row,
            0 <= columns,
    ;
    assert(row * columns + columns <= rows * columns) by (nonlinear_arith)
        requires
            row + 1 <= rows,
            0 <= columns,
    ;
}

/// Every offset inside the buffer is the row-major offset of one cell address.
pub proof fn lemma_offset_split(rows: int, columns: int, offset: int)
    requires
        0 <= offset < rows * columns,
        0 <= rows,
        0 <= columns,
    ensures
        0 <= offset / columns < rows,
        0 <= offset % columns < columns,
        (offset / columns) * columns + offset % columns == offset,
{
    assert(columns > 0) by (nonlinear_arith)
        requires
            0 <= offset < rows * columns,
            0 <= rows,
            0 <= columns,
    ;
    vstd::arithmetic::div_mod::lemma_fundamental_div_mod(offset, columns);
    vstd::arithmetic::div_mod::lemma_div_pos_is_pos(offset, columns);
    vstd::arithmetic::div_mod::lemma_mod_bound(offset, columns);
    let q = offset / columns;
    assert(columns * q == q * columns) by (nonlinear_arith);
    if q >= rows {
        assert(q * columns >= rows * columns) by (nonlinear_arith)
            requires
                q >= rows,
                columns > 0,
        ;
    }
}

/// Two cell addresses with the same row-major offset are the same address.
pub proof fn lemma_offset_unique(columns: int, r1: int, c1: int, r2: int, c2: int)
    requires
        0 <= c1 < columns,
        0 <= c2 < columns,
        r1 * columns + c1 == r2 * columns + c2,
    ensures
        r1 == r2,
        c1 == c2,
{
    if r1 < r2 {
        assert(r1 * columns + columns <= r2 * columns) by (nonlinear_arith)
            requires
                r1 + 1 <= r2,
                0 <= columns,
        ;
    } else if r2 < r1 {
        assert(r2 * columns + columns <= r1 * columns) by (nonlinear_arith)
            requires
                r2 + 1 <= r1,
                0 <= columns,
        ;
    }
}

/// A dense matrix of `rows * columns` cells, stored row by row.
#[derive(Debug, PartialEq)]
pub struct Matrix<T> {
    pub rows: usize,
    pub columns: usize,
    pub elements: Vec<T>,
}

impl<T> View for Matrix<T> {
    type V = Grid<T>;

    open spec fn view(&self) -> Grid<T> {
        Grid::from_flat(self.rows as nat, self.columns as nat, self.flat())
    }
}

impl<T> Matrix<T> {
    /// The buffer, in storage order.
    pub open spec fn flat(&self) -> Seq<T> {
        self.elements@
    }

    /// The buffer holds exactly `rows * columns` cells.
    pub open spec fn wf(&self) -> bool {
        self.elements.len() == self.rows * self.columns
    }

    /// Wraps `elements`, read row by row, as a `rows` by `columns` matrix.
    pub fn new_from(rows: usize, columns: usize, elements: Vec<T>) -> (m: Matrix<T>)
        requires
            rows * columns == elements.len(),
        ensures
            m.wf(),
            m.rows == rows,
            m.columns == columns,
            m.flat() == elements@,
            m@ == Grid::from_flat(rows as nat, columns as nat, elements@),
    {
        runtime_assert(rows * columns == elements.len());
        Matrix { rows, columns, elements }
    }

    /// Replaces the cell at `(row, column)` by `value`.
    pub fn set_at(&mut self, row: usize, column: usize, value: T)
        requires
            old(self).wf(),
            row < old(self).rows,
            column < old(self).columns,
        ensures
            final(self).wf(),
            final(self).rows == old(self).rows,
            final(self).columns == old(self).columns,
            final(self)@ == old(self)@.update(row as int, column as int, value),
    {
        runtime_assert(row < self.rows);
        runtime_assert(column < self.columns);
        proof {
            lemma_offset_in_range(
                self.rows as int,
                self.columns as int,
                row as int,
                column as int,
            );
        }
        let offset: usize = row * self.columns + column;
        self.elements.set(offset, value);
        proof {
            let before = old(self)@;
            let after = self@;
            let expected = before.update(row as int, column as int, value);
            assert forall|r: int, c: int| after.has(r, c) implies after.at(r, c) == expected.at(
                r,
                c,
            ) by {
                lemma_offset_in_range(self.rows as int, self.columns as int, r, c);
                if r * self.columns + c == offset {
                    lemma_offset_unique(self.columns as int, r, c, row as int, column as int);
                }
            }
            after.lemma_equal_by_cells(expected);
        }
    }

    /// The `rows` by `columns` matrix whose cell `(r, c)` is what `cell(r, c)` returns.
    pub fn tabulate<F: Fn(usize, usize) -> T>(rows: usize, columns: usize, cell: F) -> (m: Matrix<
        T,
    >)
        requires
            rows * columns <= usize::MAX,
            forall|r: usize, c: usize| r < rows && c < columns ==> call_requires(cell, (r, c)),
        ensures
            m.wf(),
            m.rows == rows,
            m.columns == columns,
            forall|r: usize, c: usize|
                r < rows && c < columns ==> call_ensures(
                    cell,
                    (r, c),
                    #[trigger] m@.at(r as int, c as int),
                ),
    {
        let mut elements: Vec<T> = Vec::new();
        let mut row: usize = 0;
        while row < rows
            invariant
                row <= rows,
                rows * columns <= usize::MAX,
                elements.len() == row * columns,
                forall|r: usize, c: usize| r < rows && c < columns ==> call_requires(cell, (r, c)),
                forall|r: usize, c: usize|
                    r < row && c < columns ==> call_ensures(
                        cell,
                        (r, c),
                        #[trigger] elements@[r * columns + c],
                    ),
            decreases rows - row,
        {
            let mut column: usize = 0;
            while column < columns
                invariant
                    row < rows,
                    column <= columns,
                    rows * columns <= usize::MAX,
                    elements.len() == row * columns + column,
                    forall|r: usize, c: usize|
                        r < rows && c < columns ==> call_requires(cell, (r, c)),
                    forall|r: usize, c: usize|
                        r < row && c < columns ==> call_ensures(
                            cell,
                            (r, c),
                            #[trigger] elements@[r * columns + c],
                        ),
                    forall|c: usize|
                        c < column ==> call_ensures(
                            cell,
                            (row, c),
                            #[trigger] elements@[row * columns + c],
                        ),
                decreases columns - column,
            {
                let ghost before = elements@;
                let value = cell(row, column);
                elements.push(value);
                proof {
                    assert forall|r: usize, c: usize| r < row && c < columns implies call_ensures(
                        cell,
                        (r, c),
                        #[trigger] elements@[r * columns + c],
                    ) by {
                        lemma_offset_in_range(row as int, columns as int, r as int, c as int);
                        assert(elements@[r * columns + c] == before[r * columns + c]);
                    }
                }
                column += 1;
            }
            proof {
                assert(row * columns + columns == (row + 1) * columns) by (nonlinear_arith);
                assert forall|r: usize, c: usize| r < row + 1 && c < columns implies call_ensures(
                    cell,
                    (r, c),
                    #[trigger] elements@[r * columns + c],
                ) by {
                    if r == row {
                    }
                }
            }
            row += 1;
        }
        let m = Matrix { rows, columns, elements };
        proof {
            assert forall|r: usize, c: usize| r < rows && c < columns implies call_ensures(
                cell,
                (r, c),
                #[trigger] m@.at(r as int, c as int),
            ) by {
                lemma_offset_in_range(rows as int, columns as int, r as int, c as int);
                assert(m@.at(r as int, c as int) == m.elements@[r * columns + c]);
            }
        }
        m
    }

    /// The matrix with every cell equal to `value`.
    pub fn filled(rows: usize, columns: usize, value: T) -> (m: Matrix<T>) where T: Copy
        requires
            rows * columns <= usize::MAX,
        ensures
            m.wf(),
            m.rows == rows,
            m.columns == columns,
            m@ == Grid::filled(rows as nat, columns as nat, value),
    {
        let cell = |r: usize, c: usize| -> (v: T)
            ensures
                v == value,
            { value };
        let m = Self::tabulate(rows, columns, cell);
        proof {
            let expected = Grid::filled(rows as nat, columns as nat, value);
            assert forall|r: int, c: int| m@.has(r, c) implies m@.at(r, c) == expected.at(
                r,
                c,
            ) by {
                assert(call_ensures(cell, (r as usize, c as usize), m@.at(r, c)));
            }
            m@.lemma_equal_by_cells(expected);
        }
        m
    }

    /// The number of cells.
    pub fn size(&self) -> (n: usize)
        requires
            self.wf(),
        ensures
            n == self.rows * self.columns,
            n == self.flat().len(),
    {
        self.elements.len()
    }

    /// Whether `other` has the extents of `self`.
    pub fn same_size<U>(&self, other: &Matrix<U>) -> (same: bool)
        ensures
            same == self@.same_shape(other@),
    {
        self.rows == other.rows && self.columns == other.columns
    }

    /// Holds the caller to it that `other` has the extents of `self`: a call
    /// with matrices of different extents does not verify, and one made from
    /// code that is not verified stops there.
    pub fn assert_same_size(&self, other: &Matrix<T>)
        requires
            self@.same_shape(other@),
    {
        runtime_assert(self.rows == other.rows && self.columns == other.columns);
    }
}

impl<T: Copy> Matrix<T> {
    /// The cell at `(row, column)`.
    pub fn at(&self, row: usize, column: usize) -> (value: T)
        requires
            self.wf(),
            row < self.rows,
            column < self.columns,
        ensures
            value == self@.at(row as int, column as int),
    {
        runtime_assert(row < self.rows);
        runtime_assert(column < self.columns);
        proof {
            lemma_offset_in_range(
                self.rows as int,
                self.columns as int,
                row as int,
                column as int,
            );
        }
        self.elements[row * self.columns + column]
    }

    /// An owned copy of rows `range.start..range.end`.
    pub fn slice_rows(&self, range: core::ops::Range<usize>) -> (m: Matrix<T>)
        requires
            self.wf(),
            range.start <= range.end <= self.rows,
        ensures
            m.wf(),
            m.rows == range.end - range.start,
            m.columns == self.columns,
            m@ == self@.slice_rows(range.start as int, range.end as int),
    {
        let start = range.start;
        let rows = range.end - range.start;
        proof {
            assert(rows * self.columns <= self.rows * self.columns) by (nonlinear_arith)
                requires
                    rows <= self.rows,
                    0 <= self.columns,
            ;
        }
        let cell = |r: usize, c: usize| -> (v: T)
            requires
                r < rows,
                c < self.columns,
            ensures
                v == self@.at(start + r, c as int),
            { self.at(start + r, c) };
        let m = Self::tabulate(rows, self.columns, cell);
        proof {
            let expected = self@.slice_rows(range.start as int, range.end as int);
            assert forall|r: int, c: int| m@.has(r, c) implies m@.at(r, c) == expected.at(
                r,
                c,
            ) by {
                assert(call_ensures(cell, (r as usize, c as usize), m@.at(r, c)));
            }
            m@.lemma_equal_by_cells(expected);
        }
        m
    }

    /// Exchanges rows `row` and `other_row`, cell by cell.
    pub fn swap_rows(&mut self, row: usize, other_row: usize)
        requires
            old(self).wf(),
            row < old(self).rows,
            other_row < old(self).rows,
        ensures
            final(self).wf(),
            final(self).rows == old(self).rows,
            final(self).columns == old(self).columns,
            final(self)@ == old(self)@.swap_rows(row as int, other_row as int),
    {
        let mut i: usize = 0;
        while i < self.columns
            invariant
                self.wf(),
                self.rows == old(self).rows,
                self.columns == old(self).columns,
                row < self.rows,
                other_row < self.rows,
                i <= self.columns,
                forall|r: int, c: int|
                    self@.has(r, c) ==> #[trigger] self@.at(r, c) == (if c < i && r == row {
                        old(self)@.at(other_row as int, c)
                    } else if c < i && r == other_row {
                        old(self)@.at(row as int, c)
                    } else {
                        old(self)@.at(r, c)
                    }),
            decreases self.columns - i,
        {
            let ghost before = self@;
            let value = self.at(row, i);
            let other = self.at(other_row, i);
            self.set_at(row, i, other);
            let ghost between = self@;
            self.set_at(other_row, i, value);
            proof {
                assert(before.wf());
                assert(between.wf());
                assert forall|r: int, c: int| self@.has(r, c) implies #[trigger] self@.at(r, c)
                    == (if c < i + 1 && r == row {
                    old(self)@.at(other_row as int, c)
                } else if c < i + 1 && r == other_row {
                    old(self)@.at(row as int, c)
                } else {
                    old(self)@.at(r, c)
                }) by {
                    assert(before.has(r, c));
                    assert(between.at(r, c) == if r == row && c == i {
                        other
                    } else {
                        before.at(r, c)
                    });
                    assert(self@.at(r, c) == if r == other_row && c == i {
                        value
                    } else {
                        between.at(r, c)
                    });
                }
            }
            i += 1;
        }
        proof {
            self@.lemma_equal_by_cells(old(self)@.swap_rows(row as int, other_row as int));
        }
    }
}

impl<T: Copy> Clone for Matrix<T> {
    /// A deep copy: the same extents and an equal buffer of its own.
    fn clone(&self) -> (m: Matrix<T>)
        ensures
            m.rows == self.rows,
            m.columns == self.columns,
            m.flat() == self.flat(),
            m@ == self@,
            m.wf() == self.wf(),
    {
        let mut elements: Vec<T> = Vec::new();
        let mut i: usize = 0;
        while i < self.elements.len()
            invariant
                i <= self.elements.len(),
                elements@ == self.elements@.take(i as int),
            decreases self.elements.len() - i,
        {
            elements.push(self.elements[i]);
            assert(self.elements@.take(i + 1) == self.elements@.take(i as int).push(
                self.elements@[i as int],
            ));
            i += 1;
        }
        assert(self.elements@.take(i as int) == self.elements@);
        Matrix { rows: self.rows, columns: self.columns, elements }
    }
}

impl<T: Copy + Default> Matrix<T> {
    /// The `rows` by `columns` matrix with every cell equal to one default value.
    pub fn new(rows: usize, columns: usize) -> (m: Matrix<T>)
        requires
            rows * columns <= usize::MAX,
        ensures
            m.wf(),
            m.rows == rows,
            m.columns == columns,
            exists|zero: T|
                is_default(zero) && m@ == Grid::filled(rows as nat, columns as nat, zero),
    {
        let zero = T::default();
        let m = Self::filled(rows, columns, zero);
        assert(is_default(zero) && m@ == Grid::filled(rows as nat, columns as nat, zero));
        m
    }

    /// The transposed matrix.
    pub fn t(&self) -> (m: Matrix<T>)
        requires
            self.wf(),
        ensures
            m.wf(),
            m.rows == self.columns,
            m.columns == self.rows,
            m@ == self@.transpose(),
    {
        proof {
            assert(self.columns * self.rows == self.rows * self.columns) by (nonlinear_arith);
        }
        let cell = |r: usize, c: usize| -> (v: T)
            requires
                r < self.columns,
                c < self.rows,
            ensures
                v == self@.at(c as int, r as int),
            { self.at(c, r) };
        let m = Self::tabulate(self.columns, self.rows, cell);
        proof {
            let expected = self@.transpose();
            assert forall|r: int, c: int| m@.has(r, c) implies m@.at(r, c) == expected.at(
                r,
                c,
            ) by {
                assert(call_ensures(cell, (r as usize, c as usize), m@.at(r, c)));
            }
            m@.lemma_equal_by_cells(expected);
        }
        m
    }
}

} // verus!
